//! Interning, and the text functions that the rest is built on.

use cwtools::string_table::{StringId, StringTable};
use cwtools::text::{
    join, parse_i64, replace, same_ci, split, split_whitespace, strip_prefix, trim,
    CharSet,
};

#[test]
fn basic_interning() {
    let mut table = StringTable::new();
    let a = table.intern("hello");
    let b = table.intern("HELLO");
    let c = table.intern("hello");

    assert_eq!(a, c);
    assert_eq!(a.lower, b.lower);
    assert_ne!(a.normal, b.normal);

    assert_eq!(table.get_string(a.normal), Some("hello".to_string()));
    assert_eq!(table.get_string(b.normal), Some("HELLO".to_string()));
    assert_eq!(table.get_string(a.lower), Some("hello".to_string()));
}

#[test]
fn with_string_borrows_without_clone() {
    let mut table = StringTable::new();
    let a = table.intern("NOT");
    assert_eq!(table.with_string(a.normal, |s| s == "NOT"), Some(true));
    assert_eq!(
        table.with_string(a.lower, |s| s.eq_ignore_ascii_case("not")),
        Some(true)
    );
    assert_eq!(table.with_string(StringId(9_999), |_| true), None);
    assert_eq!(
        table.with_string(a.normal, |s| s.to_string()),
        table.get_string(a.normal)
    );
}

#[test]
fn intern_batch_matches_per_string() {
    let inputs = [
        "foo", "FOO", "foo", "bar", "Bar", "", "\"q\"", "baz", "FOO", "bar",
    ];

    let mut single = StringTable::new();
    let want: Vec<_> = inputs.iter().map(|s| single.intern(s)).collect();

    let mut batch = StringTable::new();
    let items: Vec<String> = inputs.iter().map(|s| s.to_string()).collect();
    let got = batch.intern_batch(&items);

    assert_eq!(want, got);
    for (a, b) in want.iter().zip(got.iter()) {
        assert_eq!(single.get_string(a.normal), batch.get_string(b.normal));
        assert_eq!(single.get_string(a.lower), batch.get_string(b.lower));
    }
}

#[test]
fn with_read_resolves_without_per_call_lock() {
    let mut table = StringTable::new();
    let a = table.intern("hello");
    let b = table.intern("WORLD");
    table.with_read(|r| {
        assert_eq!(r.get(a.normal), Some("hello"));
        assert_eq!(r.get(b.normal), Some("WORLD"));
        assert_eq!(r.get(StringId(9_999)), None);
    });
}

#[test]
fn lower_case_is_that_of_unicode() {
    let mut table = StringTable::new();
    let a = table.intern("ÄRGER");
    assert_eq!(table.get_string(a.lower), Some("ärger".to_string()));
    assert_ne!(table.get_string(a.lower), table.get_string(a.normal));
}

#[test]
fn tables_count_their_texts() {
    let mut table = StringTable::new();
    assert!(table.is_empty());
    table.intern("a");
    table.intern("A");
    table.intern("b");
    assert_eq!(table.len(), 2);
    assert!(!table.is_empty());
    assert_eq!(table.stats().entries, 6);
    assert_eq!(table.stats().id_to_string_bytes, 5);
    assert_eq!(table.get_string(StringId::null()), None);
}

#[test]
fn texts_are_cut_and_joined() {
    assert_eq!(split("a.b..c", CharSet::One('.')), vec!["a", "b", "", "c"]);
    assert_eq!(split_whitespace("  a \t b\n"), vec!["a", "b"]);
    assert_eq!(trim("\u{a0} x \n"), "x");
    assert_eq!(strip_prefix("value[x", "value["), Some("x"));
    assert_eq!(strip_prefix("val", "value["), None);
    assert_eq!(
        join(&vec!["a".to_string(), "b".to_string()], " or "),
        "a or b"
    );
    assert_eq!(replace("{0} and {0}", "{0}", "x"), "x and x");
    assert!(same_ci("Country_Event", "country_event"));
    assert_eq!(parse_i64("-12"), Some(-12));
    assert_eq!(parse_i64("9223372036854775808"), None);
}

#[test]
fn ids_tell_whether_texts_differ_in_case_only() {
    let mut table = StringTable::new();
    let words = ["", "Owner", "OWNER", "owner", "root", ""];
    let tokens: Vec<_> = words.iter().map(|w| table.intern(w)).collect();
    for (i, a) in words.iter().enumerate() {
        for (j, b) in words.iter().enumerate() {
            assert_eq!(tokens[i].normal == tokens[j].normal, a == b);
            assert_eq!(
                tokens[i].lower == tokens[j].lower,
                a.to_lowercase() == b.to_lowercase()
            );
        }
    }
}

#[test]
fn interning_where_there_is_room() {
    let mut table = StringTable::new();
    let a = table.try_intern("Owner").unwrap();
    assert_eq!(table.try_intern("Owner"), Some(a));
    assert_eq!(a, table.intern("Owner"));
    assert_eq!(table.get_string(a.lower), Some("owner".to_string()));
    assert_eq!(table.try_intern(""), Some(table.intern("")));
}

#[test]
fn a_batch_is_interned_where_there_is_room() {
    let items: Vec<String> = ["Foo", "foo", "", "FOO", "\u{c9}t\u{e9}", "Foo"]
        .iter()
        .map(|s| s.to_string())
        .collect();
    let mut single = StringTable::new();
    let want: Vec<_> = items.iter().map(|s| single.intern(s)).collect();
    let mut batch = StringTable::new();
    assert_eq!(batch.try_intern_batch(&items), Some(want.clone()));
    assert_eq!(batch.len(), single.len());
    assert_eq!(batch.stats().entries, single.stats().entries);
    for id in 0..batch.stats().entries as u32 + 1 {
        assert_eq!(batch.get_string(StringId(id)), single.get_string(StringId(id)));
    }
    // Once held, the texts need no more ids.
    let entries = batch.stats().entries;
    assert_eq!(batch.intern_batch(&items), want);
    assert_eq!(batch.stats().entries, entries);
    assert_eq!(batch.try_intern_batch(&Vec::new()), Some(Vec::new()));
}

#[test]
fn counts_follow_from_the_texts() {
    let mut table = StringTable::new();
    assert_eq!((table.len(), table.stats().entries, table.is_empty()), (0, 1, true));
    table.intern("");
    assert_eq!((table.len(), table.stats().entries, table.is_empty()), (0, 1, true));
    // Four distinct texts with two lower cases.
    for s in ["Foo", "FOO", "foo", "\u{c9}", "Foo"] {
        table.intern(s);
    }
    assert_eq!((table.len(), table.stats().entries, table.is_empty()), (2, 7, false));
}
