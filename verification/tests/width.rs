use blog_cli_core::StrExt;
use blog_cli_core::width_split;
use blog_cli_core::width_split_head;

#[test]
fn test_width_split_head() {
    let text = "测试test⭐";
    assert_eq!(text.width_split_head(0), ("", "测试test⭐"));
    assert_eq!(text.width_split_head(1), ("", "测试test⭐"));
    assert_eq!(text.width_split_head(2), ("测", "试test⭐"));
    assert_eq!(text.width_split_head(3), ("测", "试test⭐"));
    assert_eq!(text.width_split_head(4), ("测试", "test⭐"));
    assert_eq!(text.width_split_head(5), ("测试t", "est⭐"));
    assert_eq!(text.width_split_head(9), ("测试test", "⭐"));
    assert_eq!(text.width_split_head(10), ("测试test⭐", ""));
    assert_eq!(text.width_split_head(11), ("测试test⭐", ""));
}

#[test]
fn test_width_split() {
    let text = "测试test⭐测试test⭐";
    assert_eq!(text.width_split(0), None);
    assert_eq!(text.width_split(1), None);
    assert_eq!(
        text.width_split(2),
        Some(vec!["测", "试", "te", "st", "⭐", "测", "试", "te", "st", "⭐"])
    );
    assert_eq!(
        text.width_split(3),
        Some(vec!["测", "试t", "est", "⭐", "测", "试t", "est", "⭐"])
    );
    assert_eq!(
        text.width_split(4),
        Some(vec!["测试", "test", "⭐测", "试te", "st⭐"])
    );
    assert_eq!(
        text.width_split(19),
        Some(vec!["测试test⭐测试test", "⭐"])
    );
    assert_eq!(text.width_split(20), Some(vec!["测试test⭐测试test⭐"]));
    assert_eq!(text.width_split(21), Some(vec!["测试test⭐测试test⭐"]));
}

#[test]
fn split_of_empty_text_is_zero_chunks() {
    assert_eq!(width_split("", 0), Some(vec![]) as Option<Vec<&str>>);
    assert_eq!(width_split("", 5), Some(vec![]) as Option<Vec<&str>>);
}

#[test]
fn split_head_of_empty_text() {
    assert_eq!(width_split_head("", 0), ("", ""));
    assert_eq!(width_split_head("", 7), ("", ""));
}

#[test]
fn reconstruction_on_concrete_inputs() {
    let texts = ["测试test⭐测试test⭐", "hello", "☆☆☆abc☆", "中a中a中"];
    for text in texts {
        for width in 2..24 {
            if let Some(chunks) = width_split(text, width) {
                let joined: String = chunks.concat();
                assert_eq!(joined, *text);
            }
        }
    }
}

#[test]
fn wide_budget_never_infeasible() {
    let text = "测试test⭐测试test⭐";
    for width in 2..40 {
        assert!(width_split(text, width).is_some());
    }
}

#[test]
fn tail_shrinks_when_head_is_nonempty() {
    let mut rest = "测试test⭐测试test⭐";
    while !rest.is_empty() {
        let (head, tail) = width_split_head(rest, 3);
        assert!(!head.is_empty());
        assert!(tail.len() < rest.len());
        rest = tail;
    }
}

#[test]
fn zero_width_characters_ride_along_while_budget_lasts() {
    // A combining acute accent occupies no columns: it never consumes budget
    // and is carried with the text while any budget remains.
    assert_eq!(width_split_head("\u{301}a", 1), ("\u{301}a", ""));
    // Once the budget is spent, the scan stops even before a zero-width
    // character.
    assert_eq!(width_split_head("a\u{301}", 1), ("a", "\u{301}"));
    // With no budget at all, nothing is consumed, zero-width or not.
    assert_eq!(width_split_head("\u{301}a", 0), ("", "\u{301}a"));
}

#[test]
fn overlong_character_is_never_force_included() {
    // The first character needs two columns; one column cannot take it and
    // the head comes back empty rather than cut inside the character.
    assert_eq!(width_split_head("中ab", 1), ("", "中ab"));
    // The same overlong character makes the full segmentation infeasible.
    assert_eq!(width_split("ab中cd", 1), None);
}

#[test]
fn chunk_boundaries_fall_between_characters() {
    let text = "测试test⭐测试test⭐";
    for width in 2..22 {
        if let Some(chunks) = width_split(text, width) {
            let mut offset = 0;
            for chunk in chunks {
                assert!(text.is_char_boundary(offset));
                assert_eq!(&text[offset..offset + chunk.len()], chunk);
                offset += chunk.len();
            }
            assert_eq!(offset, text.len());
        }
    }
}
