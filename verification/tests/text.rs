use raman_tools::dataset::Dataset;
use raman_tools::header::{comment_out, comments_of, file_header, input_comments};
use raman_tools::pipeline::write_preprocessor_yaml;
use raman_tools::spe_rs::spe_data::{decode_counts, frame_slots};
use raman_tools::spe_rs::xml::{lookup, XMLTag};
use raman_tools::text::{
    chars_of, contains_pattern, copy_range, find_char, find_pattern, is_ascii_letter,
    is_white_space, push_chars, remove_pattern, split_at_pattern, split_lines, stands_at,
    text_of, trim_chars,
};

fn chars(s: &str) -> Vec<char> {
    s.chars().collect()
}

fn text(v: &[char]) -> String {
    v.iter().collect()
}

const SAMPLES: [&str; 12] = [
    "",
    "a",
    "\n",
    "a\n",
    "a\nb",
    "a\r\nb\r\n",
    "a\rb\r",
    "\r\n\r\n",
    "# x\n# ---\n1,2\n",
    "\n\na\n\n",
    "trailing\r",
    "é\nü\r\n",
];

#[test]
fn chars_of_and_text_of_agree_with_the_string() {
    for s in SAMPLES {
        let v = chars_of(s);
        assert_eq!(v, chars(s));
        assert_eq!(text_of(&v, 0, v.len()), s);
    }
    let v = chars("hello");
    assert_eq!(text_of(&v, 1, 3), "el");
    assert_eq!(copy_range(&v, 2, 5), chars("llo"));
    assert_eq!(copy_range(&v, 2, 2), chars(""));
}

#[test]
fn find_char_gives_the_first_position_or_the_length() {
    let v = chars("a,b,c");
    assert_eq!(find_char(&v, 0, ','), 1);
    assert_eq!(find_char(&v, 2, ','), 3);
    assert_eq!(find_char(&v, 4, ','), 5);
    assert_eq!(find_char(&v, 5, ','), 5);
    assert_eq!(find_char(&v, 1, ','), 1);
}

#[test]
fn patterns_are_found_where_they_stand() {
    let v = chars("ab---cd----");
    let pat = chars("---");
    assert!(stands_at(&v, &pat, 2));
    assert!(!stands_at(&v, &pat, 1));
    assert!(stands_at(&v, &pat, 8));
    assert!(!stands_at(&v, &pat, 9));
    assert!(!stands_at(&v, &pat, 100));
    assert!(stands_at(&v, &[], 11));
    assert_eq!(find_pattern(&v, &pat, 0), 2);
    assert_eq!(find_pattern(&v, &pat, 3), 7);
    assert_eq!(find_pattern(&v, &pat, 9), 11);
    assert!(contains_pattern(&v, &pat));
    assert!(!contains_pattern(&v, &chars("dc")));
    assert!(contains_pattern(&v, &[]));
    assert!(contains_pattern(&[], &[]));
    assert!(!contains_pattern(&[], &pat));
}

#[test]
fn split_at_pattern_agrees_with_split() {
    for s in ["", "---", "a---b", "a------b", "----", "a--b", "---a---", "-----a"] {
        let pieces: Vec<String> = split_at_pattern(&chars(s), &chars("---"))
            .iter()
            .map(|p| text(p))
            .collect();
        let expected: Vec<String> = s.split("---").map(|p| p.to_string()).collect();
        assert_eq!(pieces, expected);
    }
}

#[test]
fn remove_pattern_agrees_with_replace() {
    for s in ["", "# ", "# a\n# b", "## ", "#  x", "a#b", "# # # "] {
        assert_eq!(
            text(&remove_pattern(&chars(s), &chars("# "))),
            s.replace("# ", "")
        );
    }
}

#[test]
fn trim_chars_agrees_with_trim() {
    for s in [
        "",
        " ",
        " a ",
        "\t\n a b \r\n",
        "a",
        "\u{a0}x\u{3000}",
        "\u{2003}\u{85}y\u{1680}",
        "\u{200b}z",
        " \u{feff} ",
    ] {
        assert_eq!(text(&trim_chars(&chars(s))), s.trim());
    }
    for code in 0..0x3100u32 {
        if let Some(c) = char::from_u32(code) {
            assert_eq!(is_white_space(c), c.is_whitespace());
            assert_eq!(is_ascii_letter(c), c.is_ascii_alphabetic());
        }
    }
}

#[test]
fn split_lines_agrees_with_lines() {
    for s in SAMPLES {
        let lines: Vec<String> = split_lines(&chars(s)).iter().map(|l| text(l)).collect();
        let expected: Vec<String> = s.lines().map(|l| l.to_string()).collect();
        assert_eq!(lines, expected);
    }
}

#[test]
fn push_chars_appends() {
    let mut s = "ab".to_string();
    push_chars(&mut s, &chars("cd"));
    push_chars(&mut s, &[]);
    assert_eq!(s, "abcd");
}

#[test]
fn comment_out_marks_every_line() {
    for s in SAMPLES {
        let expected: String = s.lines().map(|line| format!("# {}\n", line)).collect();
        assert_eq!(comment_out(s), expected);
    }
    assert_eq!(comment_out("a\n\nb"), "# a\n# \n# b\n");
}

#[test]
fn comments_of_keeps_the_comment_lines() {
    let input = "# first\n1,2\n#second\r\n3,4\n # not\n#";
    assert_eq!(comments_of(input, '#'), "# first\n#second\n#\n");
    assert_eq!(comments_of(input, '%'), "");
    assert_eq!(
        input_comments(input, '#', "comments from input:\n"),
        "comments from input:\n# first\n#second\n#\n"
    );
    assert_eq!(input_comments("1,2\n", '#', "comments from input:\n"), "");
}

#[test]
fn file_header_holds_version_log_and_comments() {
    let mut dataset = Dataset::default();
    write_preprocessor_yaml(&mut dataset, "filepath: null\n");
    dataset.append_comments("comments from input:\n# old\n");
    assert_eq!(
        dataset.metadata(),
        "preprocessor: arguments\nfilepath: null\n---\n"
    );
    assert_eq!(
        file_header(&dataset, "1.2.3"),
        "# Raman CLI Tools version 1.2.3.\n# ---\n# preprocessor: arguments\n# filepath: null\n# ---\n# comments from input:\n# # old\n"
    );
}

#[test]
fn decode_counts_reads_low_byte_first() {
    assert_eq!(decode_counts(&[1, 0, 0, 1, 255, 255, 7]), vec![1, 256, 65535]);
    assert_eq!(decode_counts(&[]), Vec::<u16>::new());
    assert_eq!(decode_counts(&[9]), Vec::<u16>::new());
    for (lo, hi) in [(0x34u8, 0x12u8), (0xff, 0x00), (0x00, 0x80)] {
        assert_eq!(decode_counts(&[lo, hi]), vec![u16::from_le_bytes([lo, hi])]);
    }
}

#[test]
fn frame_slots_counts_whole_frames() {
    assert_eq!(frame_slots(4100, 100, 4100), 0);
    assert_eq!(frame_slots(4100, 100, 4199), 0);
    assert_eq!(frame_slots(4100, 100, 4200), 1);
    assert_eq!(frame_slots(4100, 100, 4450), 3);
    assert_eq!(frame_slots(4100, 100, 10), 0);
}

#[test]
fn lookups_find_the_first_entry() {
    let root = XMLTag::from_str("<r><a k=\"1\" k2=x></a><a k=\"2\"></a></r>").unwrap();
    let index = root.build_index();
    let a = lookup(&index, "r/a").unwrap();
    assert_eq!(a.parameter("k"), Some(&"1".to_string()));
    assert_eq!(a.parameter("k2"), Some(&"x".to_string()));
    assert_eq!(a.parameter("k3"), None);
    assert!(lookup(&index, "r").is_none());
    assert!(lookup(&index, "r/b").is_none());
}
