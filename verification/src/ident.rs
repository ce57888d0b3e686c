//! Interned strings and identifiers.

use vstd::prelude::*;
use vstd::string::*;

use crate::text::str_eq;

verus! {

/// A handle to an interned string.
#[derive(Debug, Clone, Copy, PartialEq, Eq, Structural, Hash)]
pub struct Ident(u32);

impl Ident {
    /// The number this handle carries.
    pub closed spec fn index(self) -> u32 {
        self.0
    }

    /// The handle carrying the number `id`.
    pub closed spec fn spec_new(id: u32) -> Ident {
        Ident(id)
    }

    pub fn new(id: u32) -> (r: Self)
        ensures
            r == Ident::spec_new(id),
            r.index() == id,
    {
        Ident(id)
    }

    pub fn as_u32(self) -> (r: u32)
        ensures
            r == self.index(),
    {
        self.0
    }
}

/// The handle that `intern` hands out for position `i`.
pub open spec fn ident_at(i: int) -> Ident {
    Ident::spec_new(#[verifier::truncate] (i as u32))
}

/// The handle `Ident::spec_new(x)` carries the number `x`.
pub proof fn lemma_spec_new_index(x: u32)
    ensures
        Ident::spec_new(x).index() == x,
{
}

/// The handle for position `i` carries `i`, for every position that fits in
/// a `u32`.
pub proof fn lemma_ident_at_index(i: int)
    requires
        0 <= i <= u32::MAX,
    ensures
        ident_at(i).index() == i,
{
}

/// Whether no string occurs twice in `s`.
pub open spec fn no_duplicates(s: Seq<Seq<char>>) -> bool {
    forall|i: int, j: int| 0 <= i < s.len() && 0 <= j < s.len() && i != j ==> s[i] != s[j]
}

/// What interning `s` into an interner holding `before` gives: when `s` is
/// already there, the interner is unchanged and the handle is its position;
/// otherwise `s` is appended and the handle is the new position. (Handles
/// are `u32`; a position that does not fit wraps around.)
pub open spec fn intern_result(before: Seq<Seq<char>>, s: Seq<char>, after: Seq<Seq<char>>, r: Ident) -> bool {
    if before.contains(s) {
        &&& after == before
        &&& exists|i: int|
            0 <= i < before.len() && before[i] == s && r == ident_at(i) && r.index()
                == #[verifier::truncate] (i as u32)
    } else {
        &&& after == before.push(s)
        &&& r == ident_at(before.len() as int)
        &&& r.index() == #[verifier::truncate] (before.len() as u32)
    }
}

/// A deduplicating interner for strings: the same string always maps to the
/// same `Ident`, and each `Ident` it hands out is the position of its string.
pub struct Interner {
    strings: Vec<String>,
}

impl View for Interner {
    type V = Seq<Seq<char>>;

    closed spec fn view(&self) -> Seq<Seq<char>> {
        self.strings@.map_values(|s: String| s@)
    }
}

impl Interner {
    #[verifier::type_invariant]
    spec fn inv(self) -> bool {
        no_duplicates(self@)
    }

    pub fn new() -> (r: Self)
        ensures
            r@ == Seq::<Seq<char>>::empty(),
    {
        let r = Interner { strings: Vec::new() };
        assert(r@ =~= Seq::<Seq<char>>::empty());
        r
    }

    /// Intern a string, returning a stable `Ident` handle.
    ///
    /// If the string was already interned, returns the existing handle.
    pub fn intern(&mut self, s: &str) -> (r: Ident)
        ensures
            no_duplicates(final(self)@),
            intern_result(old(self)@, s@, final(self)@, r),
    {
        proof {
            use_type_invariant(&*self);
        }
        let n = self.strings.len();
        let mut i: usize = 0;
        while i < n
            invariant
                n == self.strings@.len(),
                self@ == old(self)@,
                no_duplicates(self@),
                0 <= i <= n,
                forall|j: int| 0 <= j < i ==> self@[j] != s@,
            decreases n - i,
        {
            if str_eq(self.strings[i].as_str(), s) {
                let id = Ident(#[verifier::truncate] (i as u32));
                assert(self@[i as int] == s@);
                assert(id == ident_at(i as int));
                return id;
            }
            i = i + 1;
        }
        let id = Ident(#[verifier::truncate] (n as u32));
        let owned = s.to_string();
        proof {
            vstd::string::to_string_from_display_ensures_for_str(s, owned);
        }
        let mut strings: Vec<String> = Vec::new();
        std::mem::swap(&mut strings, &mut self.strings);
        strings.push(owned);
        proof {
            let grown = strings@.map_values(|t: String| t@);
            assert(grown =~= old(self)@.push(s@));
        }
        self.strings = strings;
        proof {
            assert(self@ =~= old(self)@.push(s@));
            assert(!old(self)@.contains(s@));
        }
        id
    }

    /// Look up an `Ident` to get its string representation.
    pub fn lookup(&self, ident: Ident) -> (r: &str)
        requires
            (ident.index() as int) < self@.len(),
        ensures
            r@ == self@[ident.index() as int],
    {
        self.strings[ident.0 as usize].as_str()
    }

    /// The number of unique interned strings.
    pub fn len(&self) -> (r: usize)
        ensures
            r == self@.len(),
    {
        self.strings.len()
    }

    /// Whether the interner is empty.
    pub fn is_empty(&self) -> (r: bool)
        ensures
            r == (self@.len() == 0),
    {
        self.strings.len() == 0
    }
}

impl Default for Interner {
    fn default() -> (r: Self)
        ensures
            r@ == Seq::<Seq<char>>::empty(),
    {
        Self::new()
    }
}

/// Interning a string that is already interned changes nothing and gives
/// back the same handle: the same string always maps to the same `Ident`.
pub proof fn lemma_intern_same_string_same_ident(
    m0: Seq<Seq<char>>,
    s: Seq<char>,
    m1: Seq<Seq<char>>,
    r1: Ident,
    m2: Seq<Seq<char>>,
    r2: Ident,
)
    requires
        no_duplicates(m0),
        intern_result(m0, s, m1, r1),
        intern_result(m1, s, m2, r2),
    ensures
        r1 == r2,
        m2 == m1,
{
    if m0.contains(s) {
        let i = choose|i: int| 0 <= i < m0.len() && m0[i] == s && r1 == ident_at(i);
        let j = choose|j: int| 0 <= j < m1.len() && m1[j] == s && r2 == ident_at(j);
        assert(i == j);
    } else {
        assert(m1[m0.len() as int] == s);
        let j = choose|j: int| 0 <= j < m1.len() && m1[j] == s && r2 == ident_at(j);
        if j < m0.len() {
            assert(m0[j] == m1[j]);
        }
        assert(j == m0.len());
    }
}

/// Looking up the handle that interning `s` gave returns `s`, as long as the
/// interner held fewer than `u32::MAX` strings (handles are `u32`).
pub proof fn lemma_lookup_interned(m0: Seq<Seq<char>>, s: Seq<char>, m1: Seq<Seq<char>>, r: Ident)
    requires
        intern_result(m0, s, m1, r),
        m0.len() < u32::MAX,
    ensures
        (r.index() as int) < m1.len(),
        m1[r.index() as int] == s,
{
    if m0.contains(s) {
        let i = choose|i: int| 0 <= i < m0.len() && m0[i] == s && r == ident_at(i);
        assert(r.index() == i);
    } else {
        assert(r.index() == m0.len());
    }
}

/// Interning two different strings gives two different handles, as long as
/// the interner held fewer than `u32::MAX` strings.
pub proof fn lemma_distinct_strings_distinct_idents(
    m0: Seq<Seq<char>>,
    s: Seq<char>,
    m1: Seq<Seq<char>>,
    r1: Ident,
    t: Seq<char>,
    m2: Seq<Seq<char>>,
    r2: Ident,
)
    requires
        intern_result(m0, s, m1, r1),
        intern_result(m1, t, m2, r2),
        s != t,
        m0.len() + 1 < u32::MAX,
    ensures
        r1 != r2,
{
    lemma_lookup_interned(m0, s, m1, r1);
    lemma_lookup_interned(m1, t, m2, r2);
    if m1.contains(t) {
        assert(m2 == m1);
    } else {
        assert(m2[r1.index() as int] == m1[r1.index() as int]);
    }
}

/// What holds after interning the first `k` strings of `ss` into an empty
/// interner: no string is held twice, the strings held are those interned,
/// and each handle handed out names its string.
proof fn lemma_interned_prefix(
    ss: Seq<Seq<char>>,
    states: Seq<Seq<Seq<char>>>,
    ids: Seq<Ident>,
    k: int,
)
    requires
        states.len() == ss.len() + 1,
        states[0] == Seq::<Seq<char>>::empty(),
        ids.len() == ss.len(),
        forall|j: int|
            0 <= j < ss.len() ==> intern_result(#[trigger] states[j], ss[j], states[j + 1], ids[j]),
        0 <= k <= ss.len(),
    ensures
        no_duplicates(states[k]),
        states[k].to_set() == ss.take(k).to_set(),
        states[k].len() <= k,
        k < u32::MAX ==> forall|j: int|
            0 <= j < k ==> (#[trigger] ids[j].index() as int) < states[k].len()
                && states[k][ids[j].index() as int] == ss[j],
    decreases k,
{
    if k == 0 {
        assert(ss.take(0) =~= Seq::<Seq<char>>::empty());
        assert(states[0].to_set() =~= ss.take(0).to_set());
    } else {
        let p = k - 1;
        lemma_interned_prefix(ss, states, ids, p);
        let before = states[p];
        let after = states[k];
        let s = ss[p];
        assert(intern_result(before, s, after, ids[p]));
        assert(ss.take(k) =~= ss.take(p).push(s));
        ss.take(p).lemma_push_to_set_commute(s);
        if before.contains(s) {
            assert(before.to_set().contains(s));
            assert(after.to_set() =~= ss.take(k).to_set());
        } else {
            before.lemma_push_to_set_commute(s);
        }
        if k < u32::MAX {
            if before.contains(s) {
                let i = choose|i: int|
                    0 <= i < before.len() && before[i] == s && ids[p] == ident_at(i)
                        && ids[p].index() == #[verifier::truncate] (i as u32);
                assert(ids[p].index() == i);
            } else {
                assert(ids[p].index() == before.len());
                assert forall|j: int| 0 <= j < k implies (#[trigger] ids[j].index() as int)
                    < after.len() && after[ids[j].index() as int] == ss[j] by {
                    if j < p {
                        assert(after[ids[j].index() as int] == before[ids[j].index() as int]);
                    }
                }
            }
        }
    }
}

/// Interning the strings `ss` one after another into an empty interner,
/// going through the states `states` and receiving the handles `ids`: the
/// interner ends up holding each distinct string of `ss` exactly once, so
/// its length is the number of distinct strings interned and it is empty
/// exactly when nothing was interned; every handle handed out is below that
/// length and names the string it was handed out for, as long as fewer than
/// `u32::MAX` strings were interned (handles are `u32`).
pub proof fn lemma_interned_sequence(
    ss: Seq<Seq<char>>,
    states: Seq<Seq<Seq<char>>>,
    ids: Seq<Ident>,
)
    requires
        states.len() == ss.len() + 1,
        states[0] == Seq::<Seq<char>>::empty(),
        ids.len() == ss.len(),
        forall|j: int|
            0 <= j < ss.len() ==> intern_result(#[trigger] states[j], ss[j], states[j + 1], ids[j]),
    ensures
        no_duplicates(states.last()),
        states.last().to_set() == ss.to_set(),
        states.last().len() == ss.to_set().len(),
        (states.last().len() == 0) == (ss.len() == 0),
        ss.len() < u32::MAX ==> forall|j: int|
            0 <= j < ids.len() ==> (#[trigger] ids[j].index() as int) < states.last().len()
                && states.last()[ids[j].index() as int] == ss[j],
{
    let n = ss.len() as int;
    lemma_interned_prefix(ss, states, ids, n);
    assert(ss.take(n) =~= ss);
    let last = states.last();
    assert(last == states[n]);
    assert(last.no_duplicates());
    last.unique_seq_to_set();
    if n > 0 {
        assert(ss.to_set().contains(ss[0]));
        assert(last.to_set().contains(ss[0]));
    }
}

/// Interning goes on from any interner without disturbing what it holds:
/// through any sequence of `intern` calls, every state keeps the strings of
/// the states before it at the same positions, so a handle handed out at
/// some step still names its string in every later state (as long as the
/// interner held fewer than `u32::MAX` strings at that step).
pub proof fn lemma_intern_handles_stay(
    ss: Seq<Seq<char>>,
    states: Seq<Seq<Seq<char>>>,
    ids: Seq<Ident>,
)
    requires
        states.len() == ss.len() + 1,
        ids.len() == ss.len(),
        forall|j: int|
            0 <= j < ss.len() ==> intern_result(#[trigger] states[j], ss[j], states[j + 1], ids[j]),
    ensures
        forall|j: int, k: int|
            0 <= j <= k < states.len() ==> (#[trigger] states[j]).len() <= (#[trigger] states[k]).len()
                && states[k].subrange(0, states[j].len() as int) == states[j],
        forall|j: int|
            0 <= j < ids.len() && states[j].len() < u32::MAX ==> (#[trigger] ids[j].index() as int)
                < states.last().len() && states.last()[ids[j].index() as int] == ss[j],
{
    assert forall|j: int, k: int| 0 <= j <= k < states.len() implies (#[trigger] states[j]).len()
        <= (#[trigger] states[k]).len() && states[k].subrange(0, states[j].len() as int)
        == states[j] by {
        lemma_intern_prefix_kept(ss, states, ids, j, k);
    }
    assert forall|j: int| 0 <= j < ids.len() && states[j].len() < u32::MAX implies (
    #[trigger] ids[j].index() as int) < states.last().len() && states.last()[ids[j].index() as int]
        == ss[j] by {
        lemma_lookup_interned(states[j], ss[j], states[j + 1], ids[j]);
        let n = states.len() - 1;
        lemma_intern_prefix_kept(ss, states, ids, j + 1, n);
        let idx = ids[j].index() as int;
        assert(states[n].subrange(0, states[j + 1].len() as int)[idx] == states[j + 1][idx]);
    }
}

/// From step `j` to step `k`, the interner keeps what it held.
proof fn lemma_intern_prefix_kept(
    ss: Seq<Seq<char>>,
    states: Seq<Seq<Seq<char>>>,
    ids: Seq<Ident>,
    j: int,
    k: int,
)
    requires
        states.len() == ss.len() + 1,
        ids.len() == ss.len(),
        forall|i: int|
            0 <= i < ss.len() ==> intern_result(#[trigger] states[i], ss[i], states[i + 1], ids[i]),
        0 <= j <= k < states.len(),
    ensures
        states[j].len() <= states[k].len(),
        states[k].subrange(0, states[j].len() as int) == states[j],
    decreases k - j,
{
    if j == k {
        assert(states[k].subrange(0, states[j].len() as int) =~= states[j]);
    } else {
        lemma_intern_prefix_kept(ss, states, ids, j, k - 1);
        assert(intern_result(states[k - 1], ss[k - 1], states[k], ids[k - 1]));
        assert(states[k].subrange(0, states[j].len() as int) =~= states[j]) by {
            assert forall|i: int| 0 <= i < states[j].len() implies states[k][i] == states[j][i] by {
                assert(states[k - 1].subrange(0, states[j].len() as int)[i] == states[j][i]);
            }
        }
    }
}

} // verus!
