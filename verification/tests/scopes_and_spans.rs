use marin::com::loc::{Loc, Span};
use marin::com::scope::Scope;
use std::ops::Range;

#[test]
fn span_constructors() {
    let s = Span::new(3, 9);
    assert_eq!((s.start, s.end), (3, 9));
    let a = Span::at(4);
    assert_eq!((a.start, a.end), (4, 4));
    let l: Loc = s.wrap(2);
    assert_eq!(l.span, s);
    assert_eq!(l.file, 2);
    let l2 = Loc::new(a, 5);
    assert_eq!((l2.span, l2.file), (a, 5));
}

#[test]
fn span_combine_covers_both() {
    let c = Span::combine(Span::new(5, 8), Span::new(2, 6));
    assert_eq!(c, Span::new(2, 8));
    assert_eq!(Span::combine(Span::new(2, 6), Span::new(5, 8)), c);
    assert_eq!(Span::combine(c, c), c);
}

#[test]
fn default_span_is_neutral() {
    let d = Span::default();
    assert_eq!(d, Span::new(usize::MAX, 0));
    let s = Span::new(10, 12);
    assert_eq!(Span::combine(d, s), s);
    assert_eq!(Span::combine(s, d), s);
}

#[test]
fn span_lexeme() {
    let src = "let x = 1";
    assert_eq!(Span::new(4, 5).lexeme(src), "x");
    assert_eq!(Span::new(0, 3).lexeme(src), "let");
    assert_eq!(Span::at(2).lexeme(src), "");
}

#[test]
fn span_range_conversions() {
    let r: Range<usize> = Span::new(1, 4).into();
    assert_eq!(r, 1..4);
    let s: Span = (7..9).into();
    assert_eq!(s, Span::new(7, 9));
}

#[test]
fn scope_lookup_and_shadowing() {
    let mut scope: Scope<u32, u8, String> = Scope::root();
    assert_eq!(scope.depth(), 0);
    assert_eq!(scope.insert(1, "one".to_string()), None);
    assert_eq!(scope.search(1), Some(&"one".to_string()));
    assert_eq!(scope.search(2), None);
    scope.open(false);
    assert_eq!(scope.depth(), 1);
    assert_eq!(scope.search(1), Some(&"one".to_string()));
    scope.insert(1, "inner".to_string());
    assert_eq!(scope.search(1), Some(&"inner".to_string()));
    scope.close();
    assert_eq!(scope.depth(), 0);
    assert_eq!(scope.search(1), Some(&"one".to_string()));
}

#[test]
fn insert_gives_previous_binding() {
    let mut scope: Scope<u32, u8, u32> = Scope::root();
    assert_eq!(scope.insert(5, 10), None);
    assert_eq!(scope.insert(5, 11), Some(10));
    assert_eq!(scope.search(5), Some(&11));
}

#[test]
fn blocking_scope_hides_outer_bindings() {
    let mut scope: Scope<u32, u8, u32> = Scope::root();
    scope.insert(1, 100);
    scope.open(true);
    assert_eq!(scope.search(1), None);
    scope.insert(2, 200);
    scope.open(false);
    assert_eq!(scope.search(2), Some(&200));
    assert_eq!(scope.search(1), None);
    assert_eq!(scope.find(|v: &u32| *v > 50), Some(&200));
    scope.close();
    scope.close();
    assert_eq!(scope.search(1), Some(&100));
}

#[test]
fn find_searches_outwards() {
    let mut scope: Scope<u32, u8, u32> = Scope::root();
    scope.insert(1, 3);
    scope.open(false);
    scope.insert(2, 8);
    assert_eq!(scope.find(|v: &u32| *v % 2 == 1), Some(&3));
    assert_eq!(scope.find(|v: &u32| *v == 8), Some(&8));
    assert_eq!(scope.find(|v: &u32| *v > 100), None);
}

#[test]
fn scope_infos() {
    let mut scope: Scope<u32, u8, u32> = Scope::root();
    *scope.infos_mut() = 1;
    scope.open(false);
    *scope.infos_mut() = 2;
    scope.open(true);
    let mut infos = Vec::new();
    let mut it = scope.infos_iter();
    while let Some(i) = it.next() {
        infos.push(*i);
    }
    assert_eq!(infos, vec![0, 2, 1]);
}

#[test]
fn scope_iter_gives_own_bindings() {
    let mut scope: Scope<u32, u8, u32> = Scope::root();
    scope.insert(1, 10);
    scope.open(false);
    scope.insert(2, 20);
    scope.insert(3, 30);
    let mut pairs: Vec<(u32, u32)> = scope.iter().map(|(k, v)| (*k, *v)).collect();
    pairs.sort();
    assert_eq!(pairs, vec![(2, 20), (3, 30)]);
}

#[test]
fn iter_gives_only_the_innermost_bindings() {
    let mut s: Scope<i32, (), &str> = Scope::root();
    s.insert(1, "a");
    s.open(false);
    s.insert(2, "b");
    s.insert(2, "c");
    let pairs: Vec<(&i32, &&str)> = s.iter().collect();
    assert_eq!(pairs, vec![(&2, &"c")]);
    s.close();
    assert_eq!(s.search(1), Some(&"a"));
    assert_eq!(s.search(2), None);
}
