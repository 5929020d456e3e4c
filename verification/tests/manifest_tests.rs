use m3u8_download::error::DownloadError;
use m3u8_download::manifest::base_url_of;
use m3u8_download::manifest::parse_manifest;
use m3u8_download::manifest::resolve_segment_url;
use m3u8_download::manifest::SegmentReference;

fn urls(references: &[SegmentReference]) -> Vec<String> {
    references.iter().map(|r| r.url.clone()).collect()
}

fn indices(references: &[SegmentReference]) -> Vec<usize> {
    references.iter().map(|r| r.index).collect()
}

#[test]
fn three_relative_segments_are_resolved_in_order() {
    let references = parse_manifest("seg0.ts\nseg1.ts\nseg2.ts\n", "http://x/live/").unwrap();
    assert_eq!(indices(&references), vec![0, 1, 2]);
    assert_eq!(
        urls(&references),
        vec!["http://x/live/seg0.ts", "http://x/live/seg1.ts", "http://x/live/seg2.ts"]
    );
}

#[test]
fn comments_and_blank_lines_are_skipped() {
    let text = "#EXTM3U\n#EXT-X-VERSION:3\n\n#EXTINF:4.0,\na.ts\n\n#EXTINF:4.0,\nb.ts\n#EXT-X-ENDLIST\n";
    let references = parse_manifest(text, "http://h/p/").unwrap();
    assert_eq!(indices(&references), vec![0, 1]);
    assert_eq!(urls(&references), vec!["http://h/p/a.ts", "http://h/p/b.ts"]);
}

#[test]
fn manifest_of_comments_and_blank_lines_is_empty() {
    let result = parse_manifest("#EXTM3U\n\n# nothing here\n\n", "http://x/live/");
    assert!(matches!(result, Err(DownloadError::ManifestEmpty)));
}

#[test]
fn empty_text_is_an_empty_manifest() {
    assert!(matches!(parse_manifest("", "http://x/"), Err(DownloadError::ManifestEmpty)));
    assert!(matches!(parse_manifest("\n\n\n", "http://x/"), Err(DownloadError::ManifestEmpty)));
    assert!(matches!(parse_manifest("\r\n\r\n", "http://x/"), Err(DownloadError::ManifestEmpty)));
}

#[test]
fn absolute_reference_is_kept_and_holds_its_place() {
    let text = "seg0.ts\nhttp://cdn.example/other/seg1.ts\nseg2.ts\n";
    let references = parse_manifest(text, "http://x/live/").unwrap();
    assert_eq!(indices(&references), vec![0, 1, 2]);
    assert_eq!(
        urls(&references),
        vec!["http://x/live/seg0.ts", "http://cdn.example/other/seg1.ts", "http://x/live/seg2.ts"]
    );
}

#[test]
fn https_reference_is_absolute_too() {
    let references = parse_manifest("https://cdn/a.ts", "http://x/").unwrap();
    assert_eq!(urls(&references), vec!["https://cdn/a.ts"]);
}

#[test]
fn short_reference_is_relative() {
    let references = parse_manifest("htt\nhttp", "b/").unwrap();
    assert_eq!(urls(&references), vec!["b/htt", "http"]);
}

#[test]
fn carriage_return_before_line_feed_is_dropped() {
    let references = parse_manifest("#EXTM3U\r\na.ts\r\n\r\nb.ts\r\n", "http://x/").unwrap();
    assert_eq!(urls(&references), vec!["http://x/a.ts", "http://x/b.ts"]);
}

#[test]
fn last_line_needs_no_line_feed() {
    let references = parse_manifest("a.ts\nb.ts", "u/").unwrap();
    assert_eq!(urls(&references), vec!["u/a.ts", "u/b.ts"]);
}

#[test]
fn carriage_return_at_the_very_end_stays() {
    let references = parse_manifest("a.ts\nb.ts\r", "u/").unwrap();
    assert_eq!(urls(&references), vec!["u/a.ts", "u/b.ts\r"]);
}

#[test]
fn carriage_return_inside_a_line_stays() {
    let references = parse_manifest("a\rb\n", "u/").unwrap();
    assert_eq!(urls(&references), vec!["u/a\rb"]);
}

#[test]
fn comment_marker_counts_only_at_line_start() {
    let references = parse_manifest(" #x\na#b\n#c\n", "u/").unwrap();
    assert_eq!(urls(&references), vec!["u/ #x", "u/a#b"]);
}

#[test]
fn non_ascii_text_is_split_by_characters() {
    let references = parse_manifest("# käse\nsegmänt.ts\nß\n", "http://ü/").unwrap();
    assert_eq!(urls(&references), vec!["http://ü/segmänt.ts", "http://ü/ß"]);
}

#[test]
fn parse_agrees_with_std_lines() {
    let texts = [
        "a\nb\n",
        "a\r\nb",
        "\r\na\n\n#x\r\nb\r",
        "one",
        "#only\n",
        "x\n\ry\n\r\n",
        "http://a/b\nrel\n",
    ];
    for text in texts {
        let expected: Vec<String> = text
            .lines()
            .filter(|line| !line.starts_with('#') && !line.is_empty())
            .map(|line| {
                if line.starts_with("http") {
                    line.to_string()
                } else {
                    format!("{}{}", "base/", line)
                }
            })
            .collect();
        match parse_manifest(text, "base/") {
            Ok(references) => {
                assert_eq!(urls(&references), expected);
                let expected_indices: Vec<usize> = (0..expected.len()).collect();
                assert_eq!(indices(&references), expected_indices);
            }
            Err(e) => {
                assert!(expected.is_empty());
                assert!(matches!(e, DownloadError::ManifestEmpty));
            }
        }
    }
}

#[test]
fn base_url_drops_the_final_component() {
    assert_eq!(base_url_of("http://x/live/index.m3u8"), "http://x/live/");
    assert_eq!(base_url_of("https://host/a/b/c/playlist.m3u8?token=1"), "https://host/a/b/c/");
}

#[test]
fn base_url_of_a_directory_is_itself() {
    assert_eq!(base_url_of("http://x/live/"), "http://x/live/");
}

#[test]
fn base_url_without_any_slash_is_a_slash() {
    assert_eq!(base_url_of("playlist.m3u8"), "/");
    assert_eq!(base_url_of(""), "/");
}

#[test]
fn base_url_of_a_lone_slash() {
    assert_eq!(base_url_of("/"), "/");
    assert_eq!(base_url_of("/index.m3u8"), "/");
}

#[test]
fn resolve_appends_a_relative_reference() {
    assert_eq!(resolve_segment_url("http://x/live/", "seg0.ts"), "http://x/live/seg0.ts");
    assert_eq!(resolve_segment_url("http://x/live/", ""), "http://x/live/");
}

#[test]
fn resolve_keeps_an_absolute_reference() {
    assert_eq!(resolve_segment_url("http://x/live/", "http://y/z.ts"), "http://y/z.ts");
    assert_eq!(resolve_segment_url("http://x/live/", "httpfoo"), "httpfoo");
}

#[test]
fn manifest_url_to_segment_urls() {
    let base = base_url_of("http://x/live/index.m3u8");
    let references = parse_manifest("seg0.ts\nseg1.ts\nseg2.ts", &base).unwrap();
    assert_eq!(
        urls(&references),
        vec!["http://x/live/seg0.ts", "http://x/live/seg1.ts", "http://x/live/seg2.ts"]
    );
}
