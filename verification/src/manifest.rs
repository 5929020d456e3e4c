use vstd::prelude::*;
use crate::error::DownloadError;
use crate::error::ErrorView;
use crate::text::chars_of;
use crate::text::push_chars;

verus! {

/// One segment of the stream: its place in the manifest and where to fetch it.
#[derive(Debug)]
pub struct SegmentReference {
    pub index: usize,
    pub url: String,
}

/// The mathematical value of a [`SegmentReference`].
pub struct SegmentView {
    pub index: nat,
    pub url: Seq<char>,
}

impl View for SegmentReference {
    type V = SegmentView;

    open spec fn view(&self) -> SegmentView {
        SegmentView { index: self.index as nat, url: self.url@ }
    }
}

/// How many characters of `url` stand before its last `/`; none if it has no `/`.
pub open spec fn base_len(url: Seq<char>) -> nat
    decreases url.len(),
{
    if url.len() == 0 {
        0
    } else if url.last() == '/' {
        (url.len() - 1) as nat
    } else {
        base_len(url.drop_last())
    }
}

/// The address that relative references are resolved against: `url` without
/// its final path component, closed by a `/`.
pub open spec fn base_url(url: Seq<char>) -> Seq<char> {
    url.take(base_len(url) as int).push('/')
}

/// How many characters of `text` stand before its first line feed; all of
/// them if it has none.
pub open spec fn line_len(text: Seq<char>) -> nat
    decreases text.len(),
{
    if text.len() == 0 || text[0] == '\n' {
        0
    } else {
        1 + line_len(text.drop_first())
    }
}

/// A line that was closed by a line feed, without the carriage return that
/// may stand before the line feed.
pub open spec fn without_cr(line: Seq<char>) -> Seq<char> {
    if line.len() > 0 && line.last() == '\r' {
        line.drop_last()
    } else {
        line
    }
}

/// The lines of `text`. A line ends at a line feed, or at a carriage return
/// directly followed by one, and holds neither. The last line need not be
/// closed; a carriage return that ends an unclosed line belongs to it.
pub open spec fn lines(text: Seq<char>) -> Seq<Seq<char>>
    decreases text.len(),
{
    if text.len() == 0 {
        Seq::empty()
    } else {
        let n = line_len(text) as int;
        if n < text.len() {
            seq![without_cr(text.take(n))] + lines(text.skip(n + 1))
        } else {
            seq![text]
        }
    }
}

/// A line names a segment unless it is empty or a comment.
pub open spec fn is_segment_line(line: Seq<char>) -> bool {
    line.len() > 0 && line[0] != '#'
}

/// A reference that begins with `http` is an address of its own.
pub open spec fn is_absolute(reference: Seq<char>) -> bool {
    reference.len() >= 4 && reference.take(4) == seq!['h', 't', 't', 'p']
}

/// The address of a segment: the reference itself where it is absolute,
/// else the reference appended to the base address.
pub open spec fn resolve(base: Seq<char>, reference: Seq<char>) -> Seq<char> {
    if is_absolute(reference) {
        reference
    } else {
        base + reference
    }
}

/// [`is_segment_line`] as a predicate to filter by.
pub open spec fn segment_line_filter() -> spec_fn(Seq<char>) -> bool {
    |line: Seq<char>| is_segment_line(line)
}

/// The segment lines of a manifest, in the order in which they stand.
pub open spec fn segment_lines(text: Seq<char>) -> Seq<Seq<char>> {
    lines(text).filter(segment_line_filter())
}

/// The segments of a manifest: each segment line, numbered from 0 in
/// manifest order and resolved against `base`.
pub open spec fn segments(text: Seq<char>, base: Seq<char>) -> Seq<SegmentView> {
    let found = segment_lines(text);
    Seq::new(found.len(), |i: int| SegmentView { index: i as nat, url: resolve(base, found[i]) })
}

/// The values of a list of references.
pub open spec fn views_of(references: Seq<SegmentReference>) -> Seq<SegmentView> {
    references.map_values(|r: SegmentReference| r@)
}

proof fn lemma_base_len(url: Seq<char>, k: int)
    requires
        0 <= k < url.len(),
        url[k] == '/',
        forall|j: int| k < j < url.len() ==> url[j] != '/',
    ensures
        base_len(url) == k,
    decreases url.len(),
{
    if url.last() != '/' {
        lemma_base_len(url.drop_last(), k);
    }
}

proof fn lemma_no_slash(url: Seq<char>)
    requires
        forall|j: int| 0 <= j < url.len() ==> url[j] != '/',
    ensures
        base_len(url) == 0,
    decreases url.len(),
{
    if url.len() > 0 {
        lemma_no_slash(url.drop_last());
    }
}

/// The base address keeps what stands before the final path component and
/// its `/`, whatever the component is; an address without any `/` has the
/// base address `/`.
pub proof fn lemma_base_url_drops_final_component(directory: Seq<char>, component: Seq<char>)
    requires
        forall|j: int| 0 <= j < component.len() ==> component[j] != '/',
    ensures
        base_url(directory.push('/') + component) == directory.push('/'),
        base_url(component) == seq!['/'],
{
    let url = directory.push('/') + component;
    lemma_base_len(url, directory.len() as int);
    assert(url.take(directory.len() as int) =~= directory);
    lemma_no_slash(component);
    assert(component.take(0).push('/') =~= seq!['/']);
}

proof fn lemma_line_len(text: Seq<char>, k: int)
    requires
        0 <= k <= text.len(),
        forall|j: int| 0 <= j < k ==> text[j] != '\n',
        k < text.len() ==> text[k] == '\n',
    ensures
        line_len(text) == k,
    decreases k,
{
    if k > 0 {
        lemma_line_len(text.drop_first(), k - 1);
    }
}

/// How a text falls into lines: what stands before the first line feed is
/// the first line, without the carriage return that may end it, and the
/// lines of what follows the line feed come after it. A text without a line
/// feed is one line, or none if it is empty.
pub proof fn lemma_lines_split_at_line_feed(line: Seq<char>, rest: Seq<char>)
    requires
        forall|j: int| 0 <= j < line.len() ==> line[j] != '\n',
    ensures
        lines(line.push('\n') + rest) == seq![without_cr(line)] + lines(rest),
        lines(line) == if line.len() == 0 {
            Seq::<Seq<char>>::empty()
        } else {
            seq![line]
        },
{
    let text = line.push('\n') + rest;
    lemma_line_len(text, line.len() as int);
    assert(text.take(line.len() as int) =~= line);
    assert(text.skip(line.len() as int + 1) =~= rest);
    lemma_line_len(line, line.len() as int);
}

/// The address that the references of the manifest at `manifest_url` are
/// resolved against.
pub fn base_url_of(manifest_url: &str) -> (r: String)
    ensures
        r@ == base_url(manifest_url@),
{
    let chars = chars_of(manifest_url);
    let mut keep: usize = chars.len();
    while keep > 0 && chars[keep - 1] != '/'
        invariant
            keep <= chars.len(),
            forall|j: int| keep <= j < chars.len() ==> chars@[j] != '/',
        decreases keep,
    {
        keep -= 1;
    }
    if keep > 0 {
        keep -= 1;
        proof {
            lemma_base_len(chars@, keep as int);
        }
    } else {
        proof {
            lemma_no_slash(chars@);
        }
    }
    let mut base = String::new();
    push_chars(&mut base, &chars, 0, keep);
    base.push('/');
    assert(chars@.subrange(0, keep as int) =~= chars@.take(keep as int));
    base
}

/// Whether the four characters `http` stand at `from`, inside `chars[from..to]`.
fn is_absolute_at(chars: &Vec<char>, from: usize, to: usize) -> (r: bool)
    requires
        from <= to <= chars.len(),
    ensures
        r == is_absolute(chars@.subrange(from as int, to as int)),
{
    let ghost reference = chars@.subrange(from as int, to as int);
    if to - from < 4 {
        return false;
    }
    let r = chars[from] == 'h' && chars[from + 1] == 't' && chars[from + 2] == 't' && chars[from
        + 3] == 'p';
    proof {
        let head = reference.take(4);
        assert(head[0] == chars@[from as int]);
        assert(head[1] == chars@[from + 1]);
        assert(head[2] == chars@[from + 2]);
        assert(head[3] == chars@[from + 3]);
        if r {
            assert(head =~= seq!['h', 't', 't', 'p']);
        }
    }
    r
}

/// The address of the segment that `reference` names in a manifest whose
/// base address is `base`.
pub fn resolve_segment_url(base: &str, reference: &str) -> (r: String)
    ensures
        r@ == resolve(base@, reference@),
{
    let chars = chars_of(reference);
    assert(chars@.subrange(0, chars.len() as int) =~= reference@);
    let mut url = String::new();
    if !is_absolute_at(&chars, 0, chars.len()) {
        url.append(base);
    }
    url.append(reference);
    url
}

/// Splits a manifest into its segment references: every line that is
/// neither empty nor a comment, numbered in manifest order and resolved
/// against `base`. A manifest without any such line is refused.
pub fn parse_manifest(text: &str, base: &str) -> (r: Result<Vec<SegmentReference>, DownloadError>)
    ensures
        r is Ok <==> segment_lines(text@).len() > 0,
        r matches Ok(references) ==> views_of(references@) == segments(text@, base@),
        r matches Err(e) ==> e@ == ErrorView::ManifestEmpty,
{
    let chars = chars_of(text);
    let ghost keep = segment_line_filter();
    let mut references: Vec<SegmentReference> = Vec::new();
    let ghost mut seen: Seq<Seq<char>> = Seq::empty();
    let mut pos: usize = 0;
    proof {
        reveal(Seq::filter);
        assert(chars@.skip(0) =~= chars@);
        assert(Seq::<Seq<char>>::empty() + lines(chars@) =~= lines(chars@));
    }
    while pos < chars.len()
        invariant
            chars@ == text@,
            pos <= chars.len(),
            keep == segment_line_filter(),
            lines(chars@) == seen + lines(chars@.skip(pos as int)),
            references@.len() == seen.filter(keep).len(),
            forall|i: int|
                0 <= i < references@.len() ==> (#[trigger] references@[i])@ == (SegmentView {
                    index: i as nat,
                    url: resolve(base@, seen.filter(keep)[i]),
                }),
        decreases chars.len() - pos,
    {
        let ghost rest = chars@.skip(pos as int);
        let mut end: usize = pos;
        while end < chars.len() && chars[end] != '\n'
            invariant
                pos <= end <= chars.len(),
                forall|j: int| pos <= j < end ==> chars@[j] != '\n',
            decreases chars.len() - end,
        {
            end += 1;
        }
        let closed = end < chars.len();
        let stop = if closed && end > pos && chars[end - 1] == '\r' {
            end - 1
        } else {
            end
        };
        let next = if closed {
            end + 1
        } else {
            end
        };
        let ghost line = chars@.subrange(pos as int, stop as int);
        proof {
            lemma_line_len(rest, end - pos);
            assert(rest.take(end - pos) =~= chars@.subrange(pos as int, end as int));
            if closed {
                assert(without_cr(rest.take(end - pos)) =~= line);
                assert(rest.skip(end - pos + 1) =~= chars@.skip(next as int));
            } else {
                assert(rest =~= line);
                assert(lines(chars@.skip(next as int)) =~= Seq::<Seq<char>>::empty());
            }
            assert(lines(rest) =~= seq![line] + lines(chars@.skip(next as int)));
            assert(lines(chars@) =~= seen.push(line) + lines(chars@.skip(next as int)));
            reveal(Seq::filter);
            assert(seen.push(line).drop_last() =~= seen);
        }
        if stop > pos && chars[pos] != '#' {
            let mut url = String::new();
            if !is_absolute_at(&chars, pos, stop) {
                url.append(base);
            }
            push_chars(&mut url, &chars, pos, stop);
            let index = references.len();
            references.push(SegmentReference { index, url });
        }
        proof {
            seen = seen.push(line);
        }
        pos = next;
    }
    proof {
        assert(chars@.skip(pos as int) =~= Seq::<char>::empty());
        assert(seen + Seq::<Seq<char>>::empty() =~= seen);
        assert(views_of(references@) =~= segments(text@, base@));
    }
    if references.len() == 0 {
        Err(DownloadError::ManifestEmpty)
    } else {
        Ok(references)
    }
}

} // verus!
