use languagetool_rust::api::check::split_len;

const SENTENCES: &str = "I have so many friends.
They are very funny.
I think I am very lucky to have them.
One day, I will write them a poem.
But, in the meantime, I write code.
";

#[test]
fn split_len_one_sentence_per_fragment() {
    let split = split_len(SENTENCES, 40, "\n");
    assert_eq!(split.join(""), SENTENCES);
    assert_eq!(
        split,
        vec![
            "I have so many friends.\n",
            "They are very funny.\n",
            "I think I am very lucky to have them.\n",
            "One day, I will write them a poem.\n",
            "But, in the meantime, I write code.\n"
        ]
    );
}

#[test]
fn split_len_two_sentences_per_fragment() {
    let split = split_len(SENTENCES, 80, "\n");
    assert_eq!(
        split,
        vec![
            "I have so many friends.\nThey are very funny.\n",
            "I think I am very lucky to have them.\nOne day, I will write them a poem.\n",
            "But, in the meantime, I write code.\n"
        ]
    );
}

#[test]
fn split_len_on_paragraphs() {
    let s = "I have so many friends.
They are very funny.
I think I am very lucky to have them.

One day, I will write them a poem.
But, in the meantime, I write code.
";
    let split = split_len(s, 80, "\n\n");
    assert_eq!(
        split,
        vec![
            "I have so many friends.\nThey are very funny.\nI think I am very lucky to have \
             them.\n\n",
            "One day, I will write them a poem.\nBut, in the meantime, I write code.\n"
        ]
    );
}

#[test]
fn split_len_of_empty_text_is_empty() {
    assert_eq!(split_len("", 100, "\n"), Vec::<&str>::new());
}

#[test]
fn split_len_without_pattern_keeps_the_text_whole() {
    assert_eq!(split_len("no line feed here", 5, "\n"), vec!["no line feed here"]);
}

#[test]
fn split_len_never_cuts_inside_a_segment() {
    let split = split_len("a very long first line\nb\nc\n", 4, "\n");
    assert_eq!(split, vec!["a very long first line\n", "b\n", "c\n"]);
    let split = split_len("a very long first line\nb\nc\n", 5, "\n");
    assert_eq!(split, vec!["a very long first line\n", "b\nc\n"]);
}

#[test]
fn split_len_limit_is_exclusive() {
    // Two segments of 2 characters each: together they have 4 characters.
    assert_eq!(split_len("a\nb\n", 4, "\n"), vec!["a\n", "b\n"]);
    assert_eq!(split_len("a\nb\n", 5, "\n"), vec!["a\nb\n"]);
}

#[test]
fn split_len_keeps_what_follows_the_last_pattern() {
    assert_eq!(split_len("a\nb", 1, "\n"), vec!["a\n", "b"]);
    assert_eq!(split_len("\n\n", 1, "\n"), vec!["\n", "\n"]);
    assert_eq!(split_len("a--b--", 1, "--"), vec!["a--", "b--"]);
    assert_eq!(split_len("a---b", 1, "--"), vec!["a--", "-b"]);
}

#[test]
fn split_len_counts_bytes() {
    // Each segment has 3 characters and 5 bytes.
    assert_eq!(split_len("éé\nüü\n", 7, "\n"), vec!["éé\n", "üü\n"]);
    assert_eq!(split_len("éé\nüü\n", 10, "\n"), vec!["éé\n", "üü\n"]);
    assert_eq!(split_len("éé\nüü\n", 11, "\n"), vec!["éé\nüü\n"]);
    // Each segment has 2 characters and 3 bytes.
    assert_eq!(split_len("é\né\n", 5, "\n"), vec!["é\n", "é\n"]);
    assert_eq!(split_len("é\né\n", 6, "\n"), vec!["é\n", "é\n"]);
    assert_eq!(split_len("é\né\n", 7, "\n"), vec!["é\né\n"]);
    // Characters of one, two, three and four bytes.
    assert_eq!(split_len("a|ß|€|𝄞|", 9, "|"), vec!["a|ß|", "€|", "𝄞|"]);
    assert_eq!(split_len("a|ß|€|𝄞|", 10, "|"), vec!["a|ß|€|", "𝄞|"]);
    assert_eq!(split_len("a|ß|€|𝄞|", 15, "|"), vec!["a|ß|€|𝄞|"]);
    // A pattern of several bytes.
    assert_eq!(split_len("a€€b€€c", 8, "€€"), vec!["a€€", "b€€", "c"]);
    assert_eq!(split_len("a€€b€€c", 15, "€€"), vec!["a€€b€€", "c"]);
    assert_eq!(split_len("a€€b€€c", 16, "€€"), vec!["a€€b€€c"]);
}

#[test]
fn split_len_with_empty_pattern_cuts_between_characters() {
    assert_eq!(split_len("abc", 1, ""), vec!["", "a", "b", "c"]);
    assert_eq!(split_len("abc", 3, ""), vec!["ab", "c"]);
    assert_eq!(split_len("", 3, ""), vec![""]);
}

#[test]
fn split_len_round_trip() {
    let texts = ["", "\n", "abc", "a\nbc\n\ndef\n", "ab\n\n\ncd", "könig\nstraße\n"];
    let patterns = ["\n", "\n\n", "c", "bc", "ß"];
    for text in texts {
        for pattern in patterns {
            for n in 0..16 {
                let split = split_len(text, n, pattern);
                assert_eq!(split.join(""), text);
                for fragment in split.iter() {
                    let one_segment = fragment.matches(pattern).count() <= 1
                        && (fragment.ends_with(pattern) || !fragment.contains(pattern));
                    assert!(fragment.len() < n || one_segment);
                }
                let segments: Vec<&str> = text.split_inclusive(pattern).collect();
                for pair in split.windows(2) {
                    let next = segments
                        .iter()
                        .find(|segment| pair[1].starts_with(**segment))
                        .unwrap();
                    assert!(pair[0].len() + next.len() >= n);
                }
            }
        }
    }
}
