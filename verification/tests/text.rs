use cairo_mutants::text::{
    append_chars, contains, digit_char, find, find_chars, from_chars, matches_at, precedes,
    replace, replace_chars, to_chars, to_decimal,
};

fn chars(s: &str) -> Vec<char> {
    s.chars().collect()
}

#[test]
fn to_chars_and_back() {
    assert_eq!(to_chars("a≥b"), vec!['a', '≥', 'b']);
    assert_eq!(to_chars(""), Vec::<char>::new());
    assert_eq!(from_chars(&vec!['a', '≥', 'b']), "a≥b");
    assert_eq!(from_chars(&vec![]), "");
}

#[test]
fn matches_at_checks_one_position() {
    let hay = chars("a == b");
    assert!(matches_at(&hay, &chars("=="), 2));
    assert!(!matches_at(&hay, &chars("=="), 1));
    assert!(!matches_at(&hay, &chars("=="), 5));
    assert!(!matches_at(&hay, &chars("=="), usize::MAX));
    assert!(matches_at(&hay, &chars(""), 6));
    assert!(!matches_at(&hay, &chars(""), 7));
}

#[test]
fn find_gives_the_leftmost_position() {
    assert_eq!(find("a == b == c", "=="), Some(2));
    assert_eq!(find("a == b", "!="), None);
    assert_eq!(find("", "=="), None);
    assert_eq!(find("==", "=="), Some(0));
    assert_eq!(find("a =", "=="), None);
    assert_eq!(find("abc", ""), Some(0));
    assert_eq!(find("", ""), Some(0));
    assert_eq!(find_chars(&chars("xx//"), &chars("//")), Some(2));
}

#[test]
fn find_counts_characters_not_bytes() {
    assert_eq!(find("é == b", "=="), Some(2));
    assert_eq!("é == b".find("=="), Some(3));
}

#[test]
fn contains_is_find_without_the_position() {
    assert!(contains("#[cfg(test)]", "cfg(test)"));
    assert!(!contains("#[cfg(tes)]", "cfg(test)"));
}

#[test]
fn replace_takes_every_occurrence() {
    assert_eq!(replace("a == b && c == d", "==", "!="), "a != b && c != d");
    assert_eq!(replace("a == b", "<=", "=="), "a == b");
    assert_eq!(replace("", "==", "!="), "");
    assert_eq!(replace("==", "==", ""), "");
}

#[test]
fn replace_goes_on_behind_what_it_replaced() {
    assert_eq!(replace("====", "==", "="), "==");
    assert_eq!(replace("aaa", "aa", "b"), "ba");
    assert_eq!(replace("a > b", " > ", ">="), "a>=b");
}

#[test]
fn replace_of_nothing_changes_nothing() {
    assert_eq!(replace("abc", "", "-"), "abc");
}

#[test]
fn replace_agrees_with_the_standard_library() {
    for (line, from, to) in [
        ("if a == b { a == b }", "==", "!="),
        ("x >= y >= z", ">=", " > "),
        ("assert(a); assert(b)", "assert(", "assert(!"),
        ("a.is_zero() || b.is_zero()", ".is_zero()", ".is_non_zero()"),
    ] {
        assert_eq!(replace(line, from, to), line.replace(from, to));
        assert_eq!(
            from_chars(&replace_chars(&chars(line), &chars(from), &chars(to))),
            line.replace(from, to)
        );
    }
}

#[test]
fn append_chars_extends_at_the_end() {
    let mut out = chars("ab");
    append_chars(&mut out, &chars("cd"));
    assert_eq!(out, chars("abcd"));
    append_chars(&mut out, &chars(""));
    assert_eq!(out, chars("abcd"));
}

#[test]
fn digit_char_names_the_ten_digits() {
    let digits: String = (0..10).map(digit_char).collect();
    assert_eq!(digits, "0123456789");
    assert_eq!(digit_char(200), '9');
}

#[test]
fn to_decimal_writes_base_ten() {
    assert_eq!(to_decimal(0), "0");
    assert_eq!(to_decimal(7), "7");
    assert_eq!(to_decimal(10), "10");
    assert_eq!(to_decimal(1234567890), "1234567890");
    assert_eq!(to_decimal(u128::MAX), "340282366920938463463374607431768211455");
}

#[test]
fn precedes_is_the_order_of_a_dictionary() {
    let texts = ["", "a", "ab", "b", "B", "src/a.cairo", "src/a", "src/b", "é", "z", "ab", "~"];
    for x in texts {
        for y in texts {
            assert_eq!(precedes(&chars(x), &chars(y)), x <= y, "{:?} {:?}", x, y);
        }
    }
}
