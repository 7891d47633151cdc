use spaghetto::DeString;

#[test]
pub fn push_char_order() {
    let mut destring = DeString::new();
    destring.push_char_back('a');
    destring.push_char_back('b');
    destring.push_char_back('c');
    assert_eq!(destring.as_str(), "abc");
}

#[test]
pub fn pop_char_order() {
    let mut destring = DeString::new();
    destring.push_char_back('a');
    destring.push_char_back('b');
    destring.push_char_back('c');
    assert_eq!(destring.pop_back(), Some('c'));
    assert_eq!(destring.pop_back(), Some('b'));
    assert_eq!(destring.pop_back(), Some('a'));
    assert_eq!(destring.pop_back(), None);
}

#[test]
pub fn push_str_order() {
    let mut destring = DeString::new();
    destring.push_str_back("abc");
    destring.push_str_back("def");
    destring.push_str_back("ghi");
    assert_eq!(destring.as_str(), "abcdefghi");
}

#[test]
pub fn pop_str_order() {
    let mut destring = DeString::new();
    destring.push_str_back("abc");
    destring.push_str_back("def");
    destring.push_str_back("ghi");
    assert_eq!(destring.pop_back(), Some('i'));
    assert_eq!(destring.pop_back(), Some('h'));
    assert_eq!(destring.pop_back(), Some('g'));
    assert_eq!(destring.pop_back(), Some('f'));
    assert_eq!(destring.pop_back(), Some('e'));
    assert_eq!(destring.pop_back(), Some('d'));
    assert_eq!(destring.pop_back(), Some('c'));
    assert_eq!(destring.pop_back(), Some('b'));
    assert_eq!(destring.pop_back(), Some('a'));
    assert_eq!(destring.pop_back(), None);
}

#[test]
pub fn push_str_front_order() {
    let mut destring = DeString::new();
    destring.push_str_front("abc");
    destring.push_str_front("def");
    destring.push_str_front("ghi");
    assert_eq!(destring.as_str(), "ghidefabc");
}

#[test]
pub fn pop_str_front_order() {
    let mut destring = DeString::new();
    destring.push_str_front("abc");
    destring.push_str_front("def");
    destring.push_str_front("ghi");
    assert_eq!(destring.as_str(), "ghidefabc");
    assert_eq!(destring.pop_back(), Some('c'));
    assert_eq!(destring.pop_back(), Some('b'));
    assert_eq!(destring.pop_back(), Some('a'));
    assert_eq!(destring.pop_back(), Some('f'));
    assert_eq!(destring.pop_back(), Some('e'));
    assert_eq!(destring.pop_back(), Some('d'));
    assert_eq!(destring.pop_back(), Some('i'));
    assert_eq!(destring.pop_back(), Some('h'));
    assert_eq!(destring.pop_back(), Some('g'));
    assert_eq!(destring.pop_back(), None);
}

#[test]
pub fn test_trim_front() {
    let mut destring = DeString::new();
    destring.push_str_back("   abc");
    destring.mut_trim_front();
    assert_eq!(destring.as_str(), "abc");
    destring.push_char_front(' ');
    destring.mut_trim_front();
    assert_eq!(destring.as_str(), "abc");
}

#[test]
pub fn test_trim_back() {
    let mut destring = DeString::new();
    destring.push_str_back("abc   ");
    destring.mut_trim_back();
    assert_eq!(destring.as_str(), "abc");
    destring.push_char_back(' ');
    destring.mut_trim_back();
    assert_eq!(destring.as_str(), "abc");
}
