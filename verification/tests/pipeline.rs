use rustreader::chunk_texts;
use rustreader::clean;
use rustreader::normalize_whitespace;
use rustreader::paginate;
use rustreader::process;

#[test]
fn empty_input_yields_no_pages() {
    let pages = paginate("", 1500, 50);
    assert_eq!(pages.len(), 0);
    assert_eq!(chunk_texts("", 1500).len(), 0);
    assert_eq!(process("", 1500, 50).len(), 0);
}

#[test]
fn exact_chunk_single_page() {
    let text = "a".repeat(1500);
    let pages = paginate(&text, 1500, 50);
    assert_eq!(pages.len(), 1);
    assert_eq!(pages[0].page_number, 1);
    assert_eq!(pages[0].text_content, text);
}

#[test]
fn artifact_strings_replaced() {
    let out = clean("BookVirtual\u{2122} Hello World www.bookvirtual.com");
    assert_eq!(out, " Hello World ");
    let pages = process("BookVirtual\u{2122} Hello World www.bookvirtual.com", 1500, 0);
    assert_eq!(pages.len(), 1);
    assert_eq!(pages[0].page_number, 1);
    assert_eq!(pages[0].text_content, "Hello World");
}

#[test]
fn running_header_stripped() {
    assert_eq!(clean("DOWN THE4 Rabbit Hole"), " Rabbit Hole");
    assert_eq!(clean("DOWN THE 4 Rabbit Hole"), " Rabbit Hole");
    let pages = process("DOWN THE4 Rabbit Hole", 1500, 0);
    assert_eq!(pages.len(), 1);
    assert_eq!(pages[0].text_content, "Rabbit Hole");
}

#[test]
fn short_chunk_filtered_keeps_number() {
    let text = format!("{}{}", "x".repeat(80), "y".repeat(10));
    let pages = paginate(&text, 80, 50);
    assert_eq!(pages.len(), 1);
    assert_eq!(pages[0].page_number, 1);
    assert_eq!(pages[0].text_content, "x".repeat(80));
}

#[test]
fn dropped_chunk_leaves_gap() {
    let text = format!("{}{}", " ".repeat(80), "y".repeat(60));
    let pages = paginate(&text, 80, 50);
    assert_eq!(pages.len(), 1);
    assert_eq!(pages[0].page_number, 2);
    assert_eq!(pages[0].text_content, "y".repeat(60));
}

#[test]
fn page_numbers_strictly_increase_across_gaps() {
    let text = format!("{}{}{}", "a".repeat(10), " ".repeat(10), "b".repeat(10));
    let pages = paginate(&text, 10, 5);
    assert_eq!(pages.len(), 2);
    assert_eq!(pages[0].page_number, 1);
    assert_eq!(pages[1].page_number, 3);
    assert_eq!(pages[0].text_content, "a".repeat(10));
    assert_eq!(pages[1].text_content, "b".repeat(10));
}

#[test]
fn zero_min_length_keeps_every_chunk() {
    let text = format!("{}{}", "a".repeat(5), " ".repeat(5));
    let pages = paginate(&text, 5, 0);
    assert_eq!(pages.len(), 2);
    assert_eq!(pages[0].page_number, 1);
    assert_eq!(pages[0].text_content, "aaaaa");
    assert_eq!(pages[1].page_number, 2);
    assert_eq!(pages[1].text_content, "");
    let filtered = paginate(&text, 5, 1);
    assert_eq!(filtered.len(), 1);
    assert_eq!(filtered[0].page_number, 1);
}

#[test]
fn normalization_is_idempotent_on_samples() {
    let samples = [
        "a  b   c",
        "a\n\n\n\nb",
        "  x \n\n\n y  \n\n\n\n\n z ",
        "",
        "already clean\n\ntext",
    ];
    for s in samples {
        let once = normalize_whitespace(s);
        let twice = normalize_whitespace(&once);
        assert_eq!(once, twice);
    }
    assert_eq!(normalize_whitespace("a  b"), "a b");
    assert_eq!(normalize_whitespace("a\n\n\n\nb"), "a\n\nb");
    assert_eq!(normalize_whitespace("a \n\n\n b"), "a \n\n b");
}

#[test]
fn chunks_concatenate_to_input() {
    let inputs = ["hello world, this is text", "abc", "", "exact!!!"];
    for input in inputs {
        for size in [1usize, 3, 4, 100] {
            let ts = chunk_texts(input, size);
            let joined: String = ts.concat();
            assert_eq!(joined, input);
        }
    }
}

#[test]
fn multibyte_chunk_boundaries() {
    let ts = chunk_texts("\u{e9}\u{e9}\u{e9}\u{e9}\u{e9}", 2);
    assert_eq!(ts, ["\u{e9}\u{e9}", "\u{e9}\u{e9}", "\u{e9}"]);
    let ts = chunk_texts("\u{2192}\u{2192}\u{2192}", 2);
    assert_eq!(ts, ["\u{2192}\u{2192}", "\u{2192}"]);
    let joined: String = chunk_texts("a\u{e9}b\u{4e2d}c\u{1f600}", 2).concat();
    assert_eq!(joined, "a\u{e9}b\u{4e2d}c\u{1f600}");
}

#[test]
fn trimming_removes_unicode_whitespace() {
    let pages = paginate("  hi  ", 10, 0);
    assert_eq!(pages.len(), 1);
    assert_eq!(pages[0].text_content, "hi");
    let pages = paginate("\u{a0}hi\u{a0}", 10, 0);
    assert_eq!(pages[0].text_content, "hi");
}

#[test]
fn patent_and_copyright_lines_removed() {
    assert_eq!(clean("U.S. Patent Pending No. 12345"), " ");
    assert_eq!(clean("\u{a9} 2000 All Rights Reserved."), " ");
}

#[test]
fn attribution_line_removed_to_end_of_line() {
    assert_eq!(clean("Digital Interface by Somebody\nNext line"), " \nNext line");
}

#[test]
fn page_number_bleed_removed() {
    assert_eq!(clean("RABBIT-HOLE. 7 text"), " text");
    assert_eq!(clean("B 42 continues"), " continues");
}

#[test]
fn control_fragments_removed() {
    assert_eq!(clean("listen /nOff Close Book here"), "listen here");
    assert_eq!(clean("Fit Page Full Scree done"), " done");
    assert_eq!(clean("Open Ocean"), "Op cean");
}
