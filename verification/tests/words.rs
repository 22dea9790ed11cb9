use didi::ids::{normalize_ids, parse_id};
use didi::input::{collapse, keywords_from_line, lowercase_all, trim, white_space, words_of};
use didi::keywords::{join, normalize, parse, read_stored};
use didi::location::{choose_location, default_file_name, missing_message, no_home_message, variable_name, Source};
use didi::text::{chars_of, find, rank, Rank};
use didi::digest::fingerprint;
use didi::StoreError;

fn strings(words: &[&str]) -> Vec<String> {
    words.iter().map(|w| w.to_string()).collect()
}

fn chars(s: &str) -> Vec<char> {
    s.chars().collect()
}

#[test]
fn chars_of_gives_the_characters() {
    assert_eq!(chars_of(""), Vec::<char>::new());
    assert_eq!(chars_of("aé漢"), vec!['a', 'é', '漢']);
}

#[test]
fn rank_is_the_dictionary_order() {
    assert_eq!(rank(&chars(""), &chars("")), Rank::Same);
    assert_eq!(rank(&chars(""), &chars("a")), Rank::Before);
    assert_eq!(rank(&chars("a"), &chars("")), Rank::After);
    assert_eq!(rank(&chars("abc"), &chars("abc")), Rank::Same);
    assert_eq!(rank(&chars("abc"), &chars("abd")), Rank::Before);
    assert_eq!(rank(&chars("abd"), &chars("abc")), Rank::After);
    assert_eq!(rank(&chars("ab"), &chars("abc")), Rank::Before);
    assert_eq!(rank(&chars("b"), &chars("abc")), Rank::After);
    assert_eq!(rank(&chars("Z"), &chars("a")), Rank::Before);
    assert_eq!(rank(&chars("z"), &chars("é")), Rank::Before);
}

#[test]
fn rank_orders_as_strings_do() {
    let samples = ["", "a", "ab", "b", "B", "é", "z", "zz", "漢", "10", "9", "\u{10000}", "\u{ffff}"];
    for a in samples {
        for b in samples {
            let expected = if a < b {
                Rank::Before
            } else if a == b {
                Rank::Same
            } else {
                Rank::After
            };
            assert_eq!(rank(&chars(a), &chars(b)), expected);
        }
    }
}

#[test]
fn find_looks_for_a_substring() {
    assert!(find(&chars("my cat diary"), &chars("cat")));
    assert!(find(&chars("my cat diary"), &chars("my")));
    assert!(find(&chars("my cat diary"), &chars("diary")));
    assert!(find(&chars("my cat diary"), &chars("")));
    assert!(find(&chars(""), &chars("")));
    assert!(!find(&chars(""), &chars("a")));
    assert!(!find(&chars("my cat diary"), &chars("dog")));
    assert!(!find(&chars("cat"), &chars("cats")));
    assert!(find(&chars("aab"), &chars("ab")));
    assert!(!find(&chars("abab"), &chars("abb")));
}

#[test]
fn normalize_sorts_and_drops_what_stands_twice() {
    assert_eq!(normalize(strings(&["tea", "cat", "tea", "apple", "cat"])), strings(&["apple", "cat", "tea"]));
    assert_eq!(normalize(Vec::new()), Vec::<String>::new());
    assert_eq!(normalize(strings(&["a"])), strings(&["a"]));
    assert_eq!(normalize(strings(&["a", "a", "a"])), strings(&["a"]));
    assert_eq!(normalize(strings(&["b", "a"])), strings(&["a", "b"]));
    assert_eq!(normalize(strings(&["ab", "", "a"])), strings(&["", "a", "ab"]));
}

#[test]
fn normalize_orders_as_a_sort_does() {
    let input = strings(&["zebra", "é", "z", "Zebra", "10", "9", "漢", "", "z", "ab", "a", "é"]);
    let mut expected = input.clone();
    expected.sort();
    expected.dedup();
    assert_eq!(normalize(input), expected);
}

#[test]
fn join_puts_a_semicolon_between_keywords() {
    assert_eq!(join(&Vec::new()), "");
    assert_eq!(join(&strings(&["a"])), "a");
    assert_eq!(join(&strings(&["a", "b", "c"])), "a;b;c");
    assert_eq!(join(&strings(&["", ""])), ";");
}

#[test]
fn parse_cuts_at_each_semicolon() {
    assert_eq!(parse(""), strings(&[""]));
    assert_eq!(parse("a"), strings(&["a"]));
    assert_eq!(parse("a;b;c"), strings(&["a", "b", "c"]));
    assert_eq!(parse(";a;"), strings(&["", "a", ""]));
    assert_eq!(parse(";;"), strings(&["", "", ""]));
    assert_eq!(parse("é;漢字"), strings(&["é", "漢字"]));
}

#[test]
fn parse_cuts_as_split_does() {
    for text in ["", ";", "a;b", "a;;b;", "no separator", ";x", "ü;ö;"] {
        let expected: Vec<String> = text.split(';').map(|s| s.to_string()).collect();
        assert_eq!(parse(text), expected);
    }
}

#[test]
fn the_empty_stored_text_stands_for_no_keyword() {
    assert_eq!(read_stored(""), Vec::<String>::new());
    assert_eq!(read_stored("a"), strings(&["a"]));
    assert_eq!(read_stored("a;b;c"), strings(&["a", "b", "c"]));
    assert_eq!(read_stored(";"), strings(&["", ""]));
    assert_eq!(read_stored(";a;"), strings(&["", "a", ""]));
}

#[test]
fn any_keyword_list_but_the_lone_empty_keyword_reads_back() {
    let lists: Vec<Vec<String>> = vec![
        Vec::new(),
        strings(&["a"]),
        strings(&["ant", "zoo"]),
        strings(&["", "a"]),
        strings(&["", ""]),
        strings(&["é", "漢字", "z"]),
    ];
    for list in lists {
        assert_eq!(read_stored(&join(&list)), list);
    }
    assert_eq!(read_stored(&join(&strings(&[""]))), Vec::<String>::new());
    for text in ["", "a", "a;b", ";;", "x;;y"] {
        assert_eq!(join(&read_stored(text)), text);
    }
}

#[test]
fn keywords_read_back_as_written() {
    let keywords = normalize(strings(&["pets", "cat", "home"]));
    assert_eq!(parse(&join(&keywords)), keywords);
    for text in ["", "a", "a;b", ";;", "x;;y"] {
        assert_eq!(join(&parse(text)), text);
    }
}

#[test]
fn fingerprint_is_the_sha256_of_the_texts_in_a_row() {
    let of_abc = vec![
        0xba, 0x78, 0x16, 0xbf, 0x8f, 0x01, 0xcf, 0xea, 0x41, 0x41, 0x40, 0xde, 0x5d, 0xae, 0x22, 0x23, 0xb0, 0x03,
        0x61, 0xa3, 0x96, 0x17, 0x7a, 0x9c, 0xb4, 0x10, 0xff, 0x61, 0xf2, 0x00, 0x15, 0xad,
    ];
    assert_eq!(fingerprint("abc", "", "", ""), of_abc);
    assert_eq!(fingerprint("a", "b", "c", ""), of_abc);
    assert_eq!(fingerprint("", "", "ab", "c"), of_abc);
    let of_nothing = vec![
        0xe3, 0xb0, 0xc4, 0x42, 0x98, 0xfc, 0x1c, 0x14, 0x9a, 0xfb, 0xf4, 0xc8, 0x99, 0x6f, 0xb9, 0x24, 0x27, 0xae,
        0x41, 0xe4, 0x64, 0x9b, 0x93, 0x4c, 0xa4, 0x95, 0x99, 0x1b, 0x78, 0x52, 0xb8, 0x55,
    ];
    assert_eq!(fingerprint("", "", "", ""), of_nothing);
    assert_ne!(fingerprint("abc", "", "", "d"), of_abc);
}

#[test]
fn parse_id_reads_digits() {
    assert_eq!(parse_id("5"), Ok(5));
    assert_eq!(parse_id("0"), Ok(0));
    assert_eq!(parse_id("007"), Ok(7));
    assert_eq!(parse_id("+5"), Ok(5));
    assert_eq!(parse_id("1234567890"), Ok(1234567890));
    assert_eq!(parse_id("9223372036854775807"), Ok(i64::MAX));
    assert_eq!(parse_id("0009223372036854775807"), Ok(i64::MAX));
}

#[test]
fn parse_id_refuses_what_is_no_number() {
    for text in ["", "+", "-1", "abc", "5a", "a5", " 5", "5 ", "++5", "5+", "1.5", "٥", "９"] {
        assert_eq!(parse_id(text), Err(StoreError::Validation));
    }
}

#[test]
fn parse_id_refuses_a_number_too_large() {
    assert_eq!(parse_id("9223372036854775808"), Err(StoreError::Validation));
    assert_eq!(parse_id("18446744073709551615"), Err(StoreError::Validation));
    assert_eq!(parse_id("18446744073709551616"), Err(StoreError::Validation));
    assert_eq!(parse_id("99999999999999999999999999999999"), Err(StoreError::Validation));
    assert_eq!(parse_id("92233720368547758070"), Err(StoreError::Validation));
}

#[test]
fn normalize_ids_sorts_and_drops_what_stands_twice() {
    assert_eq!(normalize_ids(vec![5, 3, 5, 1, 3]), vec![1, 3, 5]);
    assert_eq!(normalize_ids(Vec::new()), Vec::<i64>::new());
    assert_eq!(normalize_ids(vec![2, 2, 2]), vec![2]);
    assert_eq!(normalize_ids(vec![i64::MAX, -1, 0, i64::MIN]), vec![i64::MIN, -1, 0, i64::MAX]);
    assert_eq!(normalize_ids(vec![1, 2, 3]), vec![1, 2, 3]);
    assert_eq!(normalize_ids(vec![3, 2, 1]), vec![1, 2, 3]);
}

#[test]
fn white_space_is_what_the_standard_library_takes_for_it() {
    for n in 0..=0x10ffffu32 {
        if let Some(c) = char::from_u32(n) {
            assert_eq!(white_space(c), c.is_whitespace());
        }
    }
}

#[test]
fn words_are_cut_at_white_space() {
    assert_eq!(words_of(""), Vec::<String>::new());
    assert_eq!(words_of("   "), Vec::<String>::new());
    assert_eq!(words_of("one"), strings(&["one"]));
    assert_eq!(words_of("  one two\tthree\n\nfour  "), strings(&["one", "two", "three", "four"]));
    assert_eq!(words_of("a\u{a0}b\u{3000}c"), strings(&["a", "b", "c"]));
    assert_eq!(words_of("ä ö"), strings(&["ä", "ö"]));
}

#[test]
fn words_are_cut_as_split_whitespace_does() {
    for text in ["", " ", "a", " a", "a ", "a  b", "\ta\r\nb\n\n", "x\u{2003}y", "no-break\u{a0}space", "é è"] {
        let expected: Vec<String> = text.split_whitespace().map(|s| s.to_string()).collect();
        assert_eq!(words_of(text), expected);
    }
}

#[test]
fn collapse_puts_one_blank_behind_each_word() {
    assert_eq!(collapse(""), "");
    assert_eq!(collapse("\n\n"), "");
    assert_eq!(collapse("one"), "one ");
    assert_eq!(collapse("It rained\nall day.\n\n"), "It rained all day. ");
    assert_eq!(collapse("  a   b  "), "a b ");
}

#[test]
fn keywords_from_a_line_are_its_words_in_lower_case() {
    assert_eq!(keywords_from_line("Cat  DOG\tbird"), strings(&["cat", "dog", "bird"]));
    assert_eq!(keywords_from_line(""), Vec::<String>::new());
    assert_eq!(keywords_from_line("ÄRGER Straße"), strings(&["ärger", "straße"]));
}

#[test]
fn lowercase_all_lowers_each_string() {
    assert_eq!(lowercase_all(&strings(&["Cat", "DOG", "bird", ""])), strings(&["cat", "dog", "bird", ""]));
    assert_eq!(lowercase_all(&Vec::new()), Vec::<String>::new());
}

#[test]
fn trim_drops_white_space_at_both_ends() {
    assert_eq!(trim(""), "");
    assert_eq!(trim("   "), "");
    assert_eq!(trim("a"), "a");
    assert_eq!(trim("  My day \r\n"), "My day");
    assert_eq!(trim("a  b"), "a  b");
    assert_eq!(trim("\u{a0}x\u{3000}"), "x");
    for text in ["", " ", " a", "a ", " a b ", "\t\n", "\u{2003}é\u{2003}"] {
        assert_eq!(trim(text), text.trim());
    }
}

#[test]
fn the_configured_place_comes_first() {
    let l = choose_location(Some("/data/my.sqlite".to_string()), Some("/home/ann/digital_diary.sqlite".to_string()))
        .ok()
        .expect("a configured place");
    assert_eq!(l.path, "/data/my.sqlite");
    assert_eq!(l.source, Source::Configured);
    let l = choose_location(Some("/data/my.sqlite".to_string()), None).ok().expect("a configured place");
    assert_eq!(l.path, "/data/my.sqlite");
    assert_eq!(l.source, Source::Configured);
}

#[test]
fn the_home_file_is_the_default_place() {
    let l = choose_location(None, Some("/home/ann/digital_diary.sqlite".to_string())).ok().expect("a home file");
    assert_eq!(l.path, "/home/ann/digital_diary.sqlite");
    assert_eq!(l.source, Source::Home);
}

#[test]
fn without_a_home_there_is_no_place() {
    assert!(matches!(choose_location(None, None), Err(StoreError::Io)));
}

#[test]
fn the_names_of_the_place() {
    assert_eq!(variable_name(), "DIDI_URL");
    assert_eq!(default_file_name(), "digital_diary.sqlite");
}

#[test]
fn the_messages_for_a_missing_table() {
    assert_eq!(
        missing_message(Source::Configured),
        "Error: database specified in DIDI_URL doesn't exist maybe use `didi create`"
    );
    assert_eq!(missing_message(Source::Home), "Error: no database file found. Specify DIDI_URL or use `didi create`");
    assert_eq!(no_home_message(), "Error: couldn't retrieve home directory");
}
