use vstd::prelude::*;
use crate::text::push_chars;

verus! {

/// Index numbers in scratch names are padded with zeros to this many digits.
pub const INDEX_WIDTH: usize = 5;

/// The decimal digit for `d < 10`.
pub open spec fn digit(d: nat) -> char {
    seq!['0', '1', '2', '3', '4', '5', '6', '7', '8', '9'][d as int]
}

/// The number that a decimal digit stands for; 0 for any other character.
pub open spec fn digit_value(c: char) -> nat {
    if c == '1' {
        1
    } else if c == '2' {
        2
    } else if c == '3' {
        3
    } else if c == '4' {
        4
    } else if c == '5' {
        5
    } else if c == '6' {
        6
    } else if c == '7' {
        7
    } else if c == '8' {
        8
    } else if c == '9' {
        9
    } else {
        0
    }
}

/// `n` in decimal, without leading zeros.
pub open spec fn decimal(n: nat) -> Seq<char>
    decreases n,
{
    if n < 10 {
        seq![digit(n)]
    } else {
        decimal(n / 10).push(digit(n % 10))
    }
}

/// The number that a sequence of decimal digits stands for.
pub open spec fn decimal_value(digits: Seq<char>) -> nat
    decreases digits.len(),
{
    if digits.len() == 0 {
        0
    } else {
        decimal_value(digits.drop_last()) * 10 + digit_value(digits.last())
    }
}

/// `count` zeros.
pub open spec fn zeros(count: nat) -> Seq<char> {
    Seq::new(count, |i: int| '0')
}

/// `n` in decimal, with zeros in front of it until it has `width` digits.
pub open spec fn padded(n: nat, width: nat) -> Seq<char> {
    let digits = decimal(n);
    if digits.len() >= width {
        digits
    } else {
        zeros((width - digits.len()) as nat) + digits
    }
}

/// `segment_`, which every scratch name begins with.
pub open spec fn scratch_prefix() -> Seq<char> {
    seq!['s', 'e', 'g', 'm', 'e', 'n', 't', '_']
}

/// `.ts`, which every scratch name ends with.
pub open spec fn scratch_suffix() -> Seq<char> {
    seq!['.', 't', 's']
}

/// The name of the scratch entry of the segment at `index`.
pub open spec fn scratch_name_chars(index: nat) -> Seq<char> {
    scratch_prefix() + padded(index, INDEX_WIDTH as nat) + scratch_suffix()
}

/// The name of the scratch entry that the segments are merged into.
pub open spec fn merged_name_chars() -> Seq<char> {
    seq!['m', 'e', 'r', 'g', 'e', 'd', '.', 't', 's']
}

proof fn lemma_decimal_value(n: nat)
    ensures
        decimal_value(decimal(n)) == n,
        decimal(n).len() > 0,
    decreases n,
{
    if n < 10 {
        let digits = seq![digit(n)];
        assert(digits.drop_last() =~= Seq::<char>::empty());
        assert(decimal_value(digits.drop_last()) == 0);
        assert(digits.last() == digit(n));
    } else {
        lemma_decimal_value(n / 10);
        let digits = decimal(n / 10).push(digit(n % 10));
        assert(digits.drop_last() =~= decimal(n / 10));
        assert(digits.last() == digit(n % 10));
    }
}

proof fn lemma_leading_zeros(count: nat, digits: Seq<char>)
    ensures
        decimal_value(zeros(count) + digits) == decimal_value(digits),
    decreases digits.len(), count,
{
    let all = zeros(count) + digits;
    if digits.len() > 0 {
        assert(all.drop_last() =~= zeros(count) + digits.drop_last());
        lemma_leading_zeros(count, digits.drop_last());
    } else if count > 0 {
        assert(all.drop_last() =~= zeros((count - 1) as nat) + digits);
        lemma_leading_zeros((count - 1) as nat, digits);
    } else {
        assert(all =~= digits);
    }
}

/// The index can be read back from its padded form.
pub proof fn lemma_padded_value(n: nat, width: nat)
    ensures
        decimal_value(padded(n, width)) == n,
        padded(n, width).len() >= width,
        padded(n, width).len() > 0,
{
    lemma_decimal_value(n);
    if decimal(n).len() < width {
        lemma_leading_zeros((width - decimal(n).len()) as nat, decimal(n));
    }
}

/// No two segments share a scratch entry: the names of different indices
/// differ, and none of them is the name of the merged stream.
pub proof fn lemma_scratch_names_distinct(i: nat, j: nat)
    ensures
        i != j ==> scratch_name_chars(i) != scratch_name_chars(j),
        scratch_name_chars(i) != merged_name_chars(),
{
    let a = padded(i, INDEX_WIDTH as nat);
    let b = padded(j, INDEX_WIDTH as nat);
    lemma_padded_value(i, INDEX_WIDTH as nat);
    lemma_padded_value(j, INDEX_WIDTH as nat);
    if scratch_name_chars(i) == scratch_name_chars(j) {
        let name = scratch_name_chars(i);
        assert(name.len() == 8 + a.len() + 3);
        assert(name.len() == 8 + b.len() + 3);
        assert(a =~= name.subrange(8, 8 + a.len() as int));
        assert(b =~= name.subrange(8, 8 + b.len() as int));
    }
    assert(scratch_name_chars(i)[0] == 's');
    assert(merged_name_chars()[0] == 'm');
}

/// The decimal digit for `d`.
fn digit_of(d: usize) -> (c: char)
    requires
        d < 10,
    ensures
        c == digit(d as nat),
{
    match d {
        0 => '0',
        1 => '1',
        2 => '2',
        3 => '3',
        4 => '4',
        5 => '5',
        6 => '6',
        7 => '7',
        8 => '8',
        _ => '9',
    }
}

/// The name of the scratch entry that holds the bytes of the segment at
/// `index`: `segment_`, the index in at least five decimal digits, `.ts`.
pub fn scratch_name(index: usize) -> (name: String)
    ensures
        name@ == scratch_name_chars(index as nat),
{
    let mut digits: Vec<char> = Vec::new();
    let mut rest: usize = index;
    proof {
        assert(decimal(rest as nat) + digits@ =~= decimal(index as nat));
    }
    while rest >= 10
        invariant
            decimal(index as nat) == decimal(rest as nat) + digits@,
        decreases rest,
    {
        let ghost before = digits@;
        digits.insert(0, digit_of(rest % 10));
        proof {
            assert(decimal(rest as nat) == decimal((rest / 10) as nat).push(
                digit((rest % 10) as nat),
            ));
            assert(decimal((rest / 10) as nat).push(digit((rest % 10) as nat)) + before
                =~= decimal((rest / 10) as nat) + digits@);
        }
        rest = rest / 10;
    }
    let ghost before = digits@;
    digits.insert(0, digit_of(rest));
    assert(digits@ =~= decimal(index as nat)) by {
        assert(decimal(rest as nat) =~= seq![digit(rest as nat)]);
        assert(seq![digit(rest as nat)] + before =~= digits@);
    }
    let ghost plain = digits@;
    while digits.len() < INDEX_WIDTH
        invariant
            plain == decimal(index as nat),
            digits@.len() >= plain.len(),
            digits@.len() > plain.len() ==> digits@.len() <= INDEX_WIDTH,
            digits@ == zeros((digits@.len() - plain.len()) as nat) + plain,
        decreases INDEX_WIDTH - digits.len(),
    {
        let ghost shorter = digits@;
        digits.insert(0, '0');
        assert(digits@ =~= zeros((digits@.len() - plain.len()) as nat) + plain) by {
            assert(shorter == zeros((shorter.len() - plain.len()) as nat) + plain);
        }
    }
    assert(digits@ =~= padded(index as nat, INDEX_WIDTH as nat)) by {
        if plain.len() >= INDEX_WIDTH {
            assert(zeros(0) + plain =~= plain);
        }
    }
    proof {
        reveal_strlit("segment_");
        reveal_strlit(".ts");
    }
    let mut name = String::new();
    name.append("segment_");
    push_chars(&mut name, &digits, 0, digits.len());
    name.append(".ts");
    assert(name@ =~= scratch_name_chars(index as nat)) by {
        assert("segment_"@ =~= scratch_prefix());
        assert(".ts"@ =~= scratch_suffix());
        assert(digits@.subrange(0, digits@.len() as int) =~= digits@);
    }
    name
}

/// The name of the scratch entry that the segments are merged into.
pub fn merged_name() -> (name: &'static str)
    ensures
        name@ == merged_name_chars(),
{
    proof {
        reveal_strlit("merged.ts");
    }
    let name = "merged.ts";
    assert(name@ =~= merged_name_chars());
    name
}

} // verus!
