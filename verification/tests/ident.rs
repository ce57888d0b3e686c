use lib::ident::{Ident, Interner};

#[test]
fn intern_and_lookup() {
    let mut interner = Interner::new();
    let id_foo = interner.intern("foo");
    let id_bar = interner.intern("bar");
    let id_foo2 = interner.intern("foo");

    assert_eq!(id_foo, id_foo2);
    assert_ne!(id_foo, id_bar);
    assert_eq!(interner.lookup(id_foo), "foo");
    assert_eq!(interner.lookup(id_bar), "bar");
}

#[test]
fn empty_interner_has_zero_len() {
    let interner = Interner::new();
    assert!(interner.is_empty());
}

#[test]
fn interner_maintains_distinct_ids() {
    let mut interner = Interner::new();
    let ids: Vec<Ident> = (0..10).map(|i| interner.intern(&i.to_string())).collect();
    for i in 0..ids.len() {
        for j in 0..ids.len() {
            if i != j {
                assert_ne!(ids[i], ids[j], "ids[{}] should differ from ids[{}]", i, j);
            }
        }
    }
}

#[test]
fn interning_twice_does_not_grow() {
    let mut interner = Interner::default();
    let a = interner.intern("x");
    assert_eq!(interner.len(), 1);
    let b = interner.intern("x");
    assert_eq!(interner.len(), 1);
    assert_eq!(a, b);
    assert!(!interner.is_empty());
}

#[test]
fn idents_are_positions() {
    let mut interner = Interner::new();
    assert_eq!(interner.intern("a").as_u32(), 0);
    assert_eq!(interner.intern("b").as_u32(), 1);
    assert_eq!(interner.intern("a").as_u32(), 0);
    assert_eq!(interner.intern("").as_u32(), 2);
    assert_eq!(interner.lookup(Ident::new(1)), "b");
    assert_eq!(interner.lookup(Ident::new(2)), "");
    assert_eq!(Ident::new(5).as_u32(), 5);
}

#[test]
fn intern_distinguishes_similar_strings() {
    let mut interner = Interner::new();
    let a = interner.intern("ab");
    let b = interner.intern("abc");
    let c = interner.intern("aé");
    let d = interner.intern("ab");
    assert_ne!(a, b);
    assert_ne!(a, c);
    assert_eq!(a, d);
    assert_eq!(interner.lookup(c), "aé");
    assert_eq!(interner.len(), 3);
}

#[test]
fn len_counts_distinct_interned_strings() {
    let words = ["a", "b", "a", "c", "b", "a", ""];
    let mut interner = Interner::new();
    let ids: Vec<Ident> = words.iter().map(|w| interner.intern(w)).collect();
    assert_eq!(interner.len(), 4);
    assert!(!interner.is_empty());
    for (w, id) in words.iter().zip(ids.iter()) {
        assert!((id.as_u32() as usize) < interner.len());
        assert_eq!(interner.lookup(*id), *w);
    }
}

#[test]
fn handles_keep_naming_their_strings() {
    let mut interner = Interner::new();
    interner.intern("pre");
    interner.intern("existing");
    let id = interner.intern("x");
    let again = interner.intern("existing");
    for w in ["y", "x", "z", "pre"] {
        interner.intern(w);
    }
    assert_eq!(interner.lookup(id), "x");
    assert_eq!(interner.lookup(again), "existing");
    assert_eq!(interner.len(), 5);
}
