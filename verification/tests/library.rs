use spaghetto::codec::{encode_char, is_whitespace};
use spaghetto::{DeString, DeVec, RangeBound};
use std::collections::VecDeque;

#[test]
fn new_is_empty() {
    let destring = DeString::new();
    assert_eq!(destring.as_str(), "");
    assert!(destring.is_empty());
    assert_eq!(destring.len(), 0);
    assert_eq!(destring.capacity(), 0);
}

#[test]
fn default_is_empty() {
    let destring: DeString = Default::default();
    assert!(destring.is_empty());
    assert_eq!(destring.as_str(), "");
}

#[test]
fn with_capacity_reserves() {
    let destring = DeString::with_capacity(10);
    assert!(destring.capacity() >= 10);
    assert_eq!(destring.capacity(), 10);
    assert!(destring.is_empty());
}

#[test]
fn push_char_back_doc() {
    let mut destring = DeString::from_str_slice("he");
    destring.push_char_back('l');
    destring.push_char_back('l');
    destring.push_char_back('o');
    assert_eq!(destring.as_str(), "hello");
}

#[test]
fn push_char_front_doc() {
    let mut destring = DeString::from_str_slice("ello");
    destring.push_char_front('h');
    assert_eq!(destring.as_str(), "hello");
}

#[test]
fn pop_back_doc() {
    let mut destring = DeString::from_str_slice("hello");
    assert_eq!(destring.pop_back(), Some('o'));
    assert_eq!(destring.pop_back(), Some('l'));
    assert_eq!(destring.pop_back(), Some('l'));
    assert_eq!(destring.as_str(), "he");
    assert_eq!(destring.pop_back(), Some('e'));
    assert_eq!(destring.pop_back(), Some('h'));
    assert_eq!(destring.pop_back(), None);
    assert_eq!(destring.as_str(), "");
}

#[test]
fn pop_front_doc() {
    let mut destring = DeString::from_str_slice("hello");
    assert_eq!(destring.pop_front(), Some('h'));
    assert_eq!(destring.pop_front(), Some('e'));
    assert_eq!(destring.pop_front(), Some('l'));
    assert_eq!(destring.as_str(), "lo");
    assert_eq!(destring.pop_front(), Some('l'));
    assert_eq!(destring.pop_front(), Some('o'));
    assert_eq!(destring.pop_front(), None);
    assert_eq!(destring.as_str(), "");
}

#[test]
fn push_str_doc() {
    let mut destring = DeString::new();
    destring.push_str_back("hello");
    destring.push_str_front("world ");
    assert_eq!(destring.as_str(), "world hello");
    let mut other = DeString::from_str_slice("hello");
    other.push_str_back(" world");
    assert_eq!(other.as_str(), "hello world");
    let mut third = DeString::from_str_slice("world");
    third.push_str_front("hello ");
    assert_eq!(third.as_str(), "hello world");
}

#[test]
fn len_counts_bytes() {
    let destring = DeString::from_str_slice("hello");
    assert_eq!(destring.len(), 5);
    let wide = DeString::from_str_slice("h\u{e9}\u{20ac}\u{1f600}");
    assert_eq!(wide.len(), 1 + 2 + 3 + 4);
}

#[test]
fn clear_empties() {
    let mut destring = DeString::from_str_slice("hello");
    let cap = destring.capacity();
    destring.clear();
    assert!(destring.is_empty());
    assert_eq!(destring.capacity(), cap);
    destring.push_str_back("again");
    assert_eq!(destring.as_str(), "again");
}

#[test]
fn as_bytes_doc() {
    let destring = DeString::from_str_slice("hello");
    assert_eq!(destring.as_bytes(), b"hello");
    let euro = DeString::from_str_slice("\u{20ac}");
    assert_eq!(euro.as_bytes(), &[0xE2, 0x82, 0xAC]);
}

#[test]
fn trims_doc() {
    let mut a = DeString::from_str_slice("  hello");
    let cap = a.capacity();
    a.mut_trim_front();
    assert_eq!(a.as_str(), "hello");
    assert_eq!(a.capacity(), cap);
    let mut b = DeString::from_str_slice("hello  ");
    b.mut_trim_back();
    assert_eq!(b.as_str(), "hello");
    let mut c = DeString::from_str_slice("  hello  ");
    c.mut_trim();
    assert_eq!(c.as_str(), "hello");
    let mut d = DeString::from_str_slice("  hello world  ");
    d.mut_trim_front();
    assert_eq!(d.as_str(), "hello world  ");
}

#[test]
fn trim_unicode_whitespace() {
    let mut s = DeString::from_str_slice("\u{3000}\t\n\u{a0}x y\u{2028}\u{85} \r");
    s.mut_trim();
    assert_eq!(s.as_str(), "x y");
    let mut all = DeString::from_str_slice(" \u{2003} ");
    all.mut_trim_front();
    assert_eq!(all.as_str(), "");
    let mut keep = DeString::from_str_slice("\u{200b}a\u{200b}");
    keep.mut_trim();
    assert_eq!(keep.as_str(), "\u{200b}a\u{200b}");
}

#[test]
fn is_whitespace_matches_std() {
    for v in 0u32..0x3100 {
        if let Some(c) = char::from_u32(v) {
            assert_eq!(is_whitespace(c), c.is_whitespace(), "{:x}", v);
        }
    }
}

#[test]
fn encode_char_matches_std() {
    for c in ['a', '\u{7f}', '\u{80}', '\u{7ff}', '\u{800}', '\u{ffff}', '\u{10000}', '\u{10ffff}', '\u{e9}', '\u{1f600}'] {
        let mut buf = [0u8; 4];
        let expected = c.encode_utf8(&mut buf).as_bytes().to_vec();
        assert_eq!(encode_char(c), expected);
    }
}

#[test]
fn multibyte_push_pop_both_ends() {
    let mut s = DeString::new();
    s.push_char_back('\u{e9}');
    s.push_char_back('\u{1f600}');
    s.push_char_front('\u{20ac}');
    s.push_char_front('a');
    assert_eq!(s.as_str(), "a\u{20ac}\u{e9}\u{1f600}");
    assert_eq!(s.pop_back(), Some('\u{1f600}'));
    assert_eq!(s.pop_front(), Some('a'));
    assert_eq!(s.pop_front(), Some('\u{20ac}'));
    assert_eq!(s.pop_back(), Some('\u{e9}'));
    assert_eq!(s.pop_back(), None);
    assert_eq!(s.pop_front(), None);
}

#[test]
fn push_then_pop_round_trip() {
    let mut s = DeString::from_str_slice("mid");
    for c in ['x', '\u{df}', '\u{4e2d}', '\u{10348}'] {
        s.push_char_back(c);
        assert_eq!(s.pop_back(), Some(c));
        s.push_char_front(c);
        assert_eq!(s.pop_front(), Some(c));
        assert_eq!(s.as_str(), "mid");
    }
}

#[test]
fn many_pushes_reallocate() {
    let mut s = DeString::new();
    let mut expected = String::new();
    for i in 0..300u32 {
        let c = char::from_u32('a' as u32 + (i % 26)).unwrap();
        if i % 3 == 0 {
            s.push_char_front(c);
            expected.insert(0, c);
        } else {
            s.push_char_back(c);
            expected.push(c);
        }
    }
    assert_eq!(s.as_str(), expected.as_str());
    assert!(s.capacity() >= s.len());
}

#[test]
fn from_utf8_ok() {
    let devec = DeVec::from_vec(vec![104, 101, 108, 108, 111]);
    let destring = DeString::from_utf8(devec);
    assert_eq!(destring.unwrap().as_str(), "hello");
}

#[test]
fn from_utf8_err() {
    let devec = DeVec::from_vec(vec![104, 101, 108, 108, 111, 255]);
    let destring = DeString::from_utf8(devec);
    let err = destring.err().unwrap();
    assert_eq!(err.valid_up_to(), 5);
    let surrogate = DeVec::from_vec(vec![0xED, 0xA0, 0x80]);
    assert!(DeString::from_utf8(surrogate).is_err());
    let overlong = DeVec::from_vec(vec![0xC0, 0x80]);
    assert!(DeString::from_utf8(overlong).is_err());
}

#[test]
fn from_utf8_unchecked_doc() {
    let devec = DeVec::from_vec(vec![104, 101, 108, 108, 111]);
    let destring = DeString::from_utf8_unchecked(devec);
    assert_eq!(destring.as_str(), "hello");
}

#[test]
fn drain_doc() {
    let mut destring = DeString::from_str_slice("hello world");
    let len = destring.len();
    let mut drain = destring.drain(6, len);
    let mut drained = String::new();
    while let Some(c) = drain.next() {
        drained.push(c);
    }
    assert_eq!(drained.as_str(), "world");
    assert_eq!(destring.as_str(), "hello ");
}

#[test]
fn drain_middle_multibyte() {
    let mut s = DeString::from_str_slice("a\u{e9}\u{20ac}b");
    let mut drained = s.drain(1, 6);
    assert_eq!(drained.size_hint(), (2, Some(5)));
    assert_eq!(drained.next(), Some('\u{e9}'));
    assert_eq!(drained.size_hint(), (1, Some(3)));
    assert_eq!(drained.next(), Some('\u{20ac}'));
    assert_eq!(drained.size_hint(), (0, Some(0)));
    assert_eq!(drained.next(), None);
    assert_eq!(s.as_str(), "ab");
    let mut none = s.drain(1, 1);
    assert_eq!(none.next(), None);
    assert_eq!(s.as_str(), "ab");
}

#[test]
fn equality_compares_contents() {
    let mut a = DeString::from_str_slice("bc");
    a.push_char_front('a');
    let b = DeString::from_str_slice("abc");
    assert!(a == b);
    let c = DeString::from_str_slice("abd");
    assert!(a != c);
    let d = DeString::from_str_slice("ab");
    assert!(a != d);
}

#[test]
fn string_conversions() {
    let s = DeString::from_string(String::from("caf\u{e9}"));
    assert_eq!(s.to_string(), "caf\u{e9}".to_string());
    assert_eq!(s.into_string(), String::from("caf\u{e9}"));
}

#[test]
fn devec_behaves_as_deque() {
    let mut devec = DeVec::new();
    let mut model: VecDeque<u8> = VecDeque::new();
    for i in 0..200u32 {
        let b = (i % 251) as u8;
        match i % 5 {
            0 => {
                devec.push_front(b);
                model.push_front(b);
            }
            1 => {
                assert_eq!(devec.pop_front(), model.pop_front());
            }
            2 | 3 => {
                devec.push_back(b);
                model.push_back(b);
            }
            _ => {
                assert_eq!(devec.pop_back(), model.pop_back());
            }
        }
        assert_eq!(devec.as_slice(), model.make_contiguous());
    }
}

#[test]
fn devec_remove_range() {
    let mut devec = DeVec::from_vec(vec![1, 2, 3, 4, 5, 6]);
    devec.remove_range(1, 3);
    assert_eq!(devec.as_slice(), &[1, 4, 5, 6]);
    devec.remove_front(1);
    devec.remove_back(1);
    assert_eq!(devec.as_slice(), &[4, 5]);
    assert_eq!(devec.get(1), 5);
}

#[test]
fn ordering_is_bytewise() {
    let a = DeString::from_str_slice("abc");
    let b = DeString::from_str_slice("abd");
    let c = DeString::from_str_slice("ab");
    assert!(a < b);
    assert!(c < a);
    assert!(b > c);
    assert_eq!(a.partial_cmp(&DeString::from_str_slice("abc")), Some(std::cmp::Ordering::Equal));
    assert_eq!(a.compare_bytes(&b), -1);
    assert_eq!(b.compare_bytes(&a), 1);
    let e = DeString::from_str_slice("\u{e9}");
    let z = DeString::from_str_slice("z");
    assert!(z < e);
}

#[test]
fn parse_from_str() {
    let parsed: DeString = "hello".parse().unwrap();
    assert_eq!(parsed.as_str(), "hello");
}

#[test]
fn law_scenarios_concrete() {
    let mut s = DeString::from_str_slice(" \u{a0}x\u{3000}");
    s.mut_trim_front();
    let once = s.to_string();
    s.mut_trim_front();
    assert_eq!(s.to_string(), once);
    s.push_char_back('\u{2009}');
    s.mut_trim_back();
    assert_eq!(s.as_str(), "x");
    let t = DeString::from_str_slice("\u{1f600}\u{e9}a");
    assert!(t.len() >= 3 && t.len() <= 12);
    let copy = DeString::from_utf8(DeVec::from_vec(t.as_bytes().to_vec())).unwrap();
    assert!(copy == t);
}

#[test]
fn from_chars_collects() {
    let s = DeString::from_chars(&['h', '\u{e9}', 'l', 'l', 'o']);
    assert_eq!(s.as_str(), "h\u{e9}llo");
    let empty = DeString::from_chars(&[]);
    assert!(empty.is_empty());
}

#[test]
fn concat_joins_parts() {
    let parts = vec![DeString::from_str_slice("ab"), DeString::new(), DeString::from_str_slice("\u{20ac}c")];
    let joined = DeString::concat(&parts);
    assert_eq!(joined.as_str(), "ab\u{20ac}c");
    assert_eq!(joined.len(), 6);
}

#[test]
fn from_utf8_error_is_std_error() {
    for bytes in [vec![104, 101, 255, 108], vec![0xE2, 0x82], vec![0xF0, 0x90, 0x80, 0x41]] {
        let expected = std::str::from_utf8(&bytes).unwrap_err();
        let err = DeString::from_utf8(DeVec::from_vec(bytes.clone())).err().unwrap();
        assert_eq!(err, expected);
    }
}

#[test]
fn drain_size_hint_after_next() {
    let mut s = DeString::from_str_slice("ab");
    let mut d = s.drain(0, 2);
    assert_eq!(d.size_hint(), (1, Some(2)));
    assert_eq!(d.next(), Some('a'));
    assert_eq!(d.size_hint(), (1, Some(1)));
    assert_eq!(d.next(), Some('b'));
    assert_eq!(d.size_hint(), (0, Some(0)));
    assert!(s.is_empty());
}

#[test]
fn drain_range_bounds() {
    let mut s = DeString::from_str_slice("hello world");
    let mut d = s.drain_range(RangeBound::Included(6), RangeBound::Unbounded);
    let mut out = String::new();
    while let Some(c) = d.next() {
        out.push(c);
    }
    assert_eq!(out, "world");
    assert_eq!(s.as_str(), "hello ");
    let mut t = DeString::from_str_slice("abcdef");
    let mut d2 = t.drain_range(RangeBound::Excluded(0), RangeBound::Included(2));
    assert_eq!(d2.next(), Some('b'));
    assert_eq!(d2.next(), Some('c'));
    assert_eq!(d2.next(), None);
    assert_eq!(t.as_str(), "adef");
    let mut u = DeString::from_str_slice("xyz");
    let mut d3 = u.drain_range(RangeBound::Unbounded, RangeBound::Excluded(1));
    assert_eq!(d3.next(), Some('x'));
    assert_eq!(u.as_str(), "yz");
}

#[test]
fn equality_with_str() {
    let mut s = DeString::from_str_slice("caf");
    s.push_char_back('\u{e9}');
    assert!(s == "caf\u{e9}");
    assert!(s.eq_str("caf\u{e9}"));
    assert!(!s.eq_str("cafe"));
    assert!(s != "caf");
}

#[test]
fn trait_conversions_and_deref() {
    let d = DeString::from("hello");
    assert_eq!(&*d, "hello");
    assert!(d.starts_with("he"));
    let s: String = String::from(DeString::from(String::from("w\u{f6}rld")));
    assert_eq!(s, "w\u{f6}rld");
    let e = DeString::from("abc");
    assert!(e == *"abc");
    assert!(e == String::from("abc"));
    assert!(e != String::from("abd"));
}

#[test]
fn pushes_with_room_keep_capacity() {
    let mut d = DeString::with_capacity(10);
    assert_eq!(d.capacity(), 10);
    d.push_char_back('a');
    d.push_str_back("b");
    d.push_char_front('z');
    assert_eq!(d.capacity(), 10);
    assert_eq!(d.as_str(), "zab");
    d.clear();
    assert_eq!(d.capacity(), 10);
}
