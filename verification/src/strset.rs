//! A finite set of strings kept in a vector without duplicates, and the
//! lexicographic order in which such sets are listed.
use vstd::prelude::*;
use crate::text::chars_of;

verus! {

/// Lexicographic order on character sequences, by code point: the order of
/// `String`'s `Ord`, since UTF-8 preserves code point order byte by byte.
pub open spec fn seq_lt(a: Seq<char>, b: Seq<char>) -> bool
    decreases a.len(),
{
    if a.len() == 0 {
        b.len() > 0
    } else if b.len() == 0 {
        false
    } else if a[0] != b[0] {
        (a[0] as int) < (b[0] as int)
    } else {
        seq_lt(a.drop_first(), b.drop_first())
    }
}

pub proof fn lemma_lt_irreflexive(a: Seq<char>)
    ensures
        !seq_lt(a, a),
    decreases a.len(),
{
    if a.len() > 0 {
        lemma_lt_irreflexive(a.drop_first());
    }
}

pub proof fn lemma_lt_asymmetric(a: Seq<char>, b: Seq<char>)
    ensures
        seq_lt(a, b) ==> !seq_lt(b, a),
    decreases a.len(),
{
    if a.len() > 0 && b.len() > 0 && a[0] == b[0] {
        lemma_lt_asymmetric(a.drop_first(), b.drop_first());
    }
}

pub proof fn lemma_lt_transitive(a: Seq<char>, b: Seq<char>, c: Seq<char>)
    requires
        seq_lt(a, b),
        seq_lt(b, c),
    ensures
        seq_lt(a, c),
    decreases a.len(),
{
    if a.len() > 0 && b.len() > 0 && c.len() > 0 && a[0] == b[0] && b[0] == c[0] {
        lemma_lt_transitive(a.drop_first(), b.drop_first(), c.drop_first());
    }
}

pub proof fn lemma_lt_total(a: Seq<char>, b: Seq<char>)
    ensures
        a != b ==> seq_lt(a, b) || seq_lt(b, a),
    decreases a.len(),
{
    if a.len() > 0 && b.len() > 0 && a[0] == b[0] {
        lemma_lt_total(a.drop_first(), b.drop_first());
        if a.drop_first() == b.drop_first() {
            assert(a =~= seq![a[0]] + a.drop_first());
            assert(b =~= seq![b[0]] + b.drop_first());
        }
    } else if a.len() == 0 && b.len() == 0 {
        assert(a =~= b);
    } else if a.len() > 0 && b.len() > 0 {
        assert((a[0] as int) != (b[0] as int));
    }
}

/// Strictly increasing in the lexicographic order (so also free of duplicates).
pub open spec fn sorted_strict(s: Seq<Seq<char>>) -> bool {
    forall|i: int, j: int| 0 <= i < j < s.len() ==> seq_lt(#[trigger] s[i], #[trigger] s[j])
}

/// No element occurs twice.
pub open spec fn no_dups(s: Seq<Seq<char>>) -> bool {
    forall|i: int, j: int| 0 <= i < s.len() && 0 <= j < s.len() && i != j ==> #[trigger] s[i] != #[trigger] s[j]
}

/// The texts of a sequence of strings.
pub open spec fn texts(v: Seq<String>) -> Seq<Seq<char>> {
    v.map_values(|s: String| s@)
}

fn char_code(c: char) -> (r: u32)
    ensures
        r as int == c as int,
{
    c as u32
}

/// Lexicographic comparison of two strings (`a < b`).
pub fn text_lt(a: &str, b: &str) -> (r: bool)
    ensures
        r == seq_lt(a@, b@),
{
    let ac = chars_of(a);
    let bc = chars_of(b);
    let mut i: usize = 0;
    proof {
        assert(a@.skip(0) =~= a@);
        assert(b@.skip(0) =~= b@);
    }
    while i < ac.len() && i < bc.len() && ac[i] == bc[i]
        invariant
            ac@ == a@,
            bc@ == b@,
            0 <= i <= ac.len(),
            i <= bc.len(),
            seq_lt(a@, b@) == seq_lt(a@.skip(i as int), b@.skip(i as int)),
        decreases ac.len() - i,
    {
        proof {
            assert(a@.skip(i as int).drop_first() =~= a@.skip(i + 1));
            assert(b@.skip(i as int).drop_first() =~= b@.skip(i + 1));
        }
        i += 1;
    }
    let ghost sa = a@.skip(i as int);
    let ghost sb = b@.skip(i as int);
    if i == ac.len() {
        proof {
            assert(sa.len() == 0);
        }
        i < bc.len()
    } else if i == bc.len() {
        proof {
            assert(sb.len() == 0 && sa.len() > 0);
        }
        false
    } else {
        proof {
            assert(sa[0] == ac@[i as int] && sb[0] == bc@[i as int]);
        }
        char_code(ac[i]) < char_code(bc[i])
    }
}

/// The members of a finite set of texts, in increasing order.
pub open spec fn sorted_listing(s: Set<Seq<char>>) -> Seq<Seq<char>> {
    choose|q: Seq<Seq<char>>| sorted_strict(q) && q.to_set() == s
}

pub proof fn lemma_sorted_no_dups(q: Seq<Seq<char>>)
    requires
        sorted_strict(q),
    ensures
        no_dups(q),
{
    assert forall|i: int, j: int| 0 <= i < q.len() && 0 <= j < q.len() && i != j implies #[trigger] q[i] != #[trigger] q[j] by {
        if i < j {
            lemma_lt_irreflexive(q[i]);
        } else {
            lemma_lt_irreflexive(q[j]);
        }
    }
}

/// Two increasing listings of the same set are the same listing.
pub proof fn lemma_sorted_unique(q1: Seq<Seq<char>>, q2: Seq<Seq<char>>)
    requires
        sorted_strict(q1),
        sorted_strict(q2),
        q1.to_set() == q2.to_set(),
    ensures
        q1 == q2,
    decreases q1.len(),
{
    lemma_sorted_no_dups(q1);
    lemma_sorted_no_dups(q2);
    q1.unique_seq_to_set();
    q2.unique_seq_to_set();
    if q1.len() == 0 {
        assert(q2.len() == 0);
        assert(q1 =~= q2);
    } else {
        assert(q2.len() == q1.len());
        assert(q1.to_set().contains(q1[0]));
        assert(q2.to_set().contains(q2[0]));
        let j1 = choose|j: int| 0 <= j < q2.len() && q2[j] == q1[0];
        let j2 = choose|j: int| 0 <= j < q1.len() && q1[j] == q2[0];
        if q1[0] != q2[0] {
            assert(j1 > 0 && j2 > 0);
            assert(seq_lt(q2[0], q2[j1]));
            assert(seq_lt(q1[0], q1[j2]));
            lemma_lt_asymmetric(q1[0], q2[0]);
        }
        let r1 = q1.drop_first();
        let r2 = q2.drop_first();
        assert(sorted_strict(r1)) by {
            assert forall|i: int, j: int| 0 <= i < j < r1.len() implies seq_lt(#[trigger] r1[i], #[trigger] r1[j]) by {
                assert(r1[i] == q1[i + 1] && r1[j] == q1[j + 1]);
            }
        }
        assert(sorted_strict(r2)) by {
            assert forall|i: int, j: int| 0 <= i < j < r2.len() implies seq_lt(#[trigger] r2[i], #[trigger] r2[j]) by {
                assert(r2[i] == q2[i + 1] && r2[j] == q2[j + 1]);
            }
        }
        assert(r1.to_set() =~= r2.to_set()) by {
            assert forall|x: Seq<char>| r1.to_set().contains(x) <==> r2.to_set().contains(x) by {
                if r1.to_set().contains(x) {
                    let a = choose|a: int| 0 <= a < r1.len() && r1[a] == x;
                    assert(q1[a + 1] == x && q1[a + 1] != q1[0]);
                    assert(q1.contains(x));
                    assert(q2.to_set().contains(x));
                    let b = choose|b: int| 0 <= b < q2.len() && q2[b] == x;
                    assert(b != 0);
                    assert(r2[b - 1] == x);
                    assert(r2.contains(x));
                }
                if r2.to_set().contains(x) {
                    let a = choose|a: int| 0 <= a < r2.len() && r2[a] == x;
                    assert(q2[a + 1] == x && q2[a + 1] != q2[0]);
                    assert(q2.contains(x));
                    assert(q1.to_set().contains(x));
                    let b = choose|b: int| 0 <= b < q1.len() && q1[b] == x;
                    assert(b != 0);
                    assert(r1[b - 1] == x);
                    assert(r1.contains(x));
                }
            }
        }
        lemma_sorted_unique(r1, r2);
        assert(q1 =~= seq![q1[0]] + r1);
        assert(q2 =~= seq![q2[0]] + r2);
    }
}

/// A strictly increasing listing of `s` is its sorted listing.
pub proof fn lemma_is_sorted_listing(q: Seq<Seq<char>>, s: Set<Seq<char>>)
    requires
        sorted_strict(q),
        q.to_set() == s,
    ensures
        sorted_listing(s) == q,
{
    let c = sorted_listing(s);
    assert(sorted_strict(c) && c.to_set() == s);
    lemma_sorted_unique(c, q);
}

/// Where `x` goes in a strictly increasing listing: before the first entry above it.
spec fn lt_pos(q: Seq<Seq<char>>, x: Seq<char>) -> int
    decreases q.len(),
{
    if q.len() == 0 {
        0
    } else if seq_lt(x, q[0]) {
        0
    } else {
        1 + lt_pos(q.drop_first(), x)
    }
}

proof fn lemma_lt_pos(q: Seq<Seq<char>>, x: Seq<char>)
    ensures
        0 <= lt_pos(q, x) <= q.len(),
        forall|k: int| 0 <= k < lt_pos(q, x) ==> !seq_lt(x, #[trigger] q[k]),
        lt_pos(q, x) < q.len() ==> seq_lt(x, q[lt_pos(q, x)]),
    decreases q.len(),
{
    if q.len() > 0 && !seq_lt(x, q[0]) {
        let t = q.drop_first();
        lemma_lt_pos(t, x);
        assert forall|k: int| 0 <= k < lt_pos(q, x) implies !seq_lt(x, #[trigger] q[k]) by {
            if k > 0 {
                assert(q[k] == t[k - 1]);
            }
        }
        if lt_pos(q, x) < q.len() {
            assert(q[lt_pos(q, x)] == t[lt_pos(t, x)]);
        }
    }
}

/// Some strictly increasing listing of every finite set exists.
proof fn lemma_sorted_witness(s: Set<Seq<char>>)
    requires
        s.finite(),
    ensures
        exists|q: Seq<Seq<char>>| sorted_strict(q) && q.to_set() == s,
    decreases s.len(),
{
    if s.len() == 0 {
        let q = Seq::<Seq<char>>::empty();
        assert(q.to_set() =~= s);
        assert(sorted_strict(q) && q.to_set() == s);
    } else {
        let x = s.choose();
        lemma_sorted_witness(s.remove(x));
        let q = choose|q: Seq<Seq<char>>| sorted_strict(q) && q.to_set() == s.remove(x);
        lemma_lt_pos(q, x);
        let p = lt_pos(q, x);
        let n = q.insert(p, x);
        assert(!q.to_set().contains(x));
        assert forall|k: int| 0 <= k < p implies seq_lt(#[trigger] q[k], x) by {
            lemma_lt_total(x, q[k]);
            assert(q.to_set().contains(q[k]));
        }
        assert forall|k: int| p <= k < q.len() implies seq_lt(x, #[trigger] q[k]) by {
            if k > p {
                lemma_lt_transitive(x, q[p], q[k]);
            }
        }
        assert forall|i: int, j: int| 0 <= i < j < n.len() implies seq_lt(#[trigger] n[i], #[trigger] n[j]) by {
            if j < p {
                assert(n[i] == q[i] && n[j] == q[j]);
            } else if j == p {
                assert(n[i] == q[i] && n[j] == x);
            } else if i > p {
                assert(n[i] == q[i - 1] && n[j] == q[j - 1]);
            } else if i == p {
                assert(n[i] == x && n[j] == q[j - 1]);
            } else {
                assert(n[i] == q[i] && n[j] == q[j - 1]);
                lemma_lt_transitive(q[i], x, q[j - 1]);
            }
        }
        assert(n.to_set() =~= s) by {
            assert forall|y: Seq<char>| n.to_set().contains(y) <==> s.contains(y) by {
                if n.to_set().contains(y) {
                    let a = choose|a: int| 0 <= a < n.len() && n[a] == y;
                    if a < p {
                        assert(q[a] == y && q.to_set().contains(y));
                    } else if a > p {
                        assert(q[a - 1] == y && q.to_set().contains(y));
                    }
                }
                if s.contains(y) {
                    if y == x {
                        assert(n[p] == y);
                    } else {
                        assert(q.to_set().contains(y));
                        let a = choose|a: int| 0 <= a < q.len() && q[a] == y;
                        if a < p {
                            assert(n[a] == y);
                        } else {
                            assert(n[a + 1] == y);
                        }
                    }
                }
            }
        }
        assert(sorted_strict(n) && n.to_set() == s);
    }
}

/// The sorted listing of a finite set is strictly increasing and lists the set.
pub proof fn lemma_sorted_listing_lists(s: Set<Seq<char>>)
    requires
        s.finite(),
    ensures
        sorted_strict(sorted_listing(s)),
        sorted_listing(s).to_set() == s,
{
    lemma_sorted_witness(s);
}

/// A set of strings without duplicates, listed in the order of insertion.
pub struct StringSet {
    items: Vec<String>,
}

impl View for StringSet {
    type V = Set<Seq<char>>;

    closed spec fn view(&self) -> Set<Seq<char>> {
        texts(self.items@).to_set()
    }
}

impl StringSet {
    /// No member is stored twice; every value of the type satisfies this.
    #[verifier::type_invariant]
    pub closed spec fn well_formed(self) -> bool {
        no_dups(texts(self.items@))
    }

    /// A set of strings holds finitely many members.
    pub proof fn lemma_view_finite(&self)
        ensures
            self@.finite(),
    {
        vstd::seq_lib::seq_to_set_is_finite(texts(self.items@));
    }

    /// The members in their stored order.
    pub closed spec fn elems(self) -> Seq<Seq<char>> {
        texts(self.items@)
    }

    /// The members are exactly the stored ones.
    pub proof fn lemma_elems_members(&self)
        ensures
            forall|x: Seq<char>| #[trigger] self@.contains(x) <==> self.elems().contains(x),
    {
    }

    /// The listing holds each member exactly once.
    pub proof fn lemma_elems(&self)
        requires
            self.well_formed(),
        ensures
            no_dups(self.elems()),
            self.elems().to_set() == self@,
            self@.finite(),
            self@.len() == self.elems().len(),
    {
        self.elems().unique_seq_to_set();
    }

    /// The empty set.
    pub fn new() -> (r: StringSet)
        ensures
            r@ == Set::<Seq<char>>::empty(),
            r.elems() == Seq::<Seq<char>>::empty(),
    {
        let r = StringSet { items: Vec::new() };
        proof {
            assert(texts(r.items@) =~= seq![]);
            assert(r@ =~= Set::<Seq<char>>::empty());
        }
        r
    }

    fn position(&self, s: &str) -> (r: Option<usize>)
        ensures
            match r {
                Some(i) => i < self.items@.len() && self.items@[i as int]@ == s@
                    && self.elems().contains(s@) && self@.contains(s@),
                None => !self.elems().contains(s@) && !self@.contains(s@),
            },
    {
        let mut i: usize = 0;
        while i < self.items.len()
            invariant
                0 <= i <= self.items@.len(),
                forall|k: int| 0 <= k < i ==> self.items@[k]@ != s@,
            decreases self.items@.len() - i,
        {
            if crate::text::text_eq(self.items[i].as_str(), s) {
                proof {
                    assert(self.elems()[i as int] == s@);
                    assert(self.elems().contains(s@));
                }
                return Some(i);
            }
            i += 1;
        }
        proof {
            if self.elems().contains(s@) {
                let k = choose|k: int| 0 <= k < self.elems().len() && self.elems()[k] == s@;
                assert(self.items@[k]@ == s@);
            }
        }
        None
    }

    /// Membership test.
    pub fn contains(&self, s: &str) -> (r: bool)
        ensures
            r == self@.contains(s@),
    {
        proof {
            use_type_invariant(self);
            self.lemma_elems();
        }
        self.position(s).is_some()
    }

    /// Number of members.
    pub fn len(&self) -> (r: usize)
        ensures
            r == self@.len(),
    {
        proof {
            use_type_invariant(self);
            self.lemma_elems();
        }
        self.items.len()
    }

    /// Whether the set is empty.
    pub fn is_empty(&self) -> (r: bool)
        ensures
            r == (self@.len() == 0),
            r == (self@ == Set::<Seq<char>>::empty()),
    {
        proof {
            use_type_invariant(self);
            self.lemma_elems();
            if self.items@.len() == 0 {
                assert(self@ =~= Set::<Seq<char>>::empty());
            } else {
                assert(self.elems().to_set().contains(self.elems()[0]));
            }
        }
        self.items.len() == 0
    }

    /// Adds `s`; tells whether it was absent before.
    pub fn insert(&mut self, s: String) -> (r: bool)
        ensures
            final(self)@ == old(self)@.insert(s@),
            r == !old(self)@.contains(s@),
    {
        proof {
            use_type_invariant(&*self);
            self.lemma_elems();
        }
        if self.position(s.as_str()).is_some() {
            proof {
                assert(self@.insert(s@) =~= self@);
            }
            return false;
        }
        let ghost old_items = self.items@;
        let mut items: Vec<String> = Vec::new();
        std::mem::swap(&mut items, &mut self.items);
        items.push(s);
        proof {
            assert(texts(items@) =~= texts(old_items).push(s@));
            assert(no_dups(texts(items@)));
        }
        self.items = items;
        proof {
            texts(old_items).lemma_push_to_set_commute(s@);
            assert(self@ =~= texts(old_items).to_set().insert(s@));
        }
        true
    }

    /// Removes `s`; tells whether it was present.
    pub fn remove(&mut self, s: &str) -> (r: bool)
        ensures
            final(self)@ == old(self)@.remove(s@),
            r == old(self)@.contains(s@),
    {
        proof {
            use_type_invariant(&*self);
            self.lemma_elems();
        }
        match self.position(s) {
            None => {
                proof {
                    assert(self@.remove(s@) =~= self@);
                }
                false
            },
            Some(i) => {
                let ghost old_items = self.items@;
                let mut items: Vec<String> = Vec::new();
        std::mem::swap(&mut items, &mut self.items);
                items.remove(i);
                proof {
                    let t = texts(old_items);
                    assert(texts(items@) =~= t.remove(i as int));
                    assert(no_dups(texts(items@))) by {
                        assert forall|a: int, b: int|
                            0 <= a < texts(items@).len() && 0 <= b < texts(items@).len() && a
                                != b implies #[trigger] texts(items@)[a] != #[trigger] texts(
                            items@,
                        )[b] by {
                            let a2 = if a < i { a } else { a + 1 };
                            let b2 = if b < i { b } else { b + 1 };
                            assert(texts(items@)[a] == t[a2]);
                            assert(texts(items@)[b] == t[b2]);
                        }
                    }
                    assert(texts(items@).to_set() =~= t.to_set().remove(s@)) by {
                        assert forall|x: Seq<char>| texts(items@).to_set().contains(x) <==> t.to_set().remove(s@).contains(x) by {
                            if texts(items@).to_set().contains(x) {
                                let a = choose|a: int| 0 <= a < texts(items@).len() && texts(items@)[a] == x;
                                let a2 = if a < i { a } else { a + 1 };
                                assert(t[a2] == x);
                                assert(a2 != i);
                                assert(t[a2] != t[i as int]);
                                assert(t.contains(x));
                            }
                            if t.to_set().remove(s@).contains(x) {
                                let a = choose|a: int| 0 <= a < t.len() && t[a] == x;
                                assert(a != i);
                                let a2 = if a < i { a } else { a - 1 };
                                assert(texts(items@)[a2] == x);
                                assert(texts(items@).contains(x));
                            }
                        }
                    }
                }
                self.items = items;
                true
            },
        }
    }

    /// Builds the set of the strings in `v` (duplicates collapse).
    pub fn from_vec(v: Vec<String>) -> (r: StringSet)
        ensures
            r@ == texts(v@).to_set(),
    {
        let mut r = StringSet::new();
        let mut i: usize = 0;
        while i < v.len()
            invariant
                0 <= i <= v@.len(),
                r@ == texts(v@.take(i as int)).to_set(),
            decreases v@.len() - i,
        {
            r.insert(v[i].clone());
            proof {
                assert(texts(v@.take(i + 1)) =~= texts(v@.take(i as int)).push(v@[i as int]@));
                texts(v@.take(i as int)).lemma_push_to_set_commute(v@[i as int]@);
                assert(texts(v@.take(i + 1)).to_set() =~= texts(v@.take(i as int)).to_set().insert(
                    v@[i as int]@,
                ));
            }
            i += 1;
        }
        proof {
            assert(v@.take(v@.len() as int) =~= v@);
        }
        r
    }

    /// The members in their stored order, as new strings.
    pub fn to_vec(&self) -> (r: Vec<String>)
        ensures
            texts(r@) == self.elems(),
    {
        let mut r: Vec<String> = Vec::new();
        let mut i: usize = 0;
        while i < self.items.len()
            invariant
                0 <= i <= self.items@.len(),
                texts(r@) == texts(self.items@.take(i as int)),
            decreases self.items@.len() - i,
        {
            r.push(self.items[i].clone());
            proof {
                assert(texts(self.items@.take(i + 1)) =~= texts(self.items@.take(i as int)).push(
                    self.items@[i as int]@,
                ));
                assert(texts(r@) =~= texts(self.items@.take(i + 1)));
            }
            i += 1;
        }
        proof {
            assert(self.items@.take(self.items@.len() as int) =~= self.items@);
        }
        r
    }

    /// The members in increasing lexicographic order.
    pub fn sorted(&self) -> (r: Vec<String>)
        ensures
            texts(r@) == sorted_listing(self@),
            sorted_strict(texts(r@)),
            texts(r@).to_set() == self@,
            r@.len() == self@.len(),
    {
        proof {
            use_type_invariant(self);
            self.lemma_elems();
        }
        let mut r: Vec<String> = Vec::new();
        let mut i: usize = 0;
        while i < self.items.len()
            invariant
                0 <= i <= self.items@.len(),
                no_dups(texts(self.items@)),
                sorted_strict(texts(r@)),
                texts(r@).to_set() == texts(self.items@.take(i as int)).to_set(),
                r@.len() == i,
            decreases self.items@.len() - i,
        {
            let x = self.items[i].clone();
            proof {
                assert(!texts(r@).to_set().contains(x@)) by {
                    if texts(self.items@.take(i as int)).to_set().contains(x@) {
                        let k = choose|k: int|
                            0 <= k < texts(self.items@.take(i as int)).len() && texts(
                                self.items@.take(i as int),
                            )[k] == x@;
                        assert(texts(self.items@)[k] == texts(self.items@)[i as int]);
                    }
                }
            }
            insert_sorted(&mut r, x);
            proof {
                assert(texts(self.items@.take(i + 1)) =~= texts(self.items@.take(i as int)).push(
                    self.items@[i as int]@,
                ));
                texts(self.items@.take(i as int)).lemma_push_to_set_commute(self.items@[i as int]@);
                assert(texts(self.items@.take(i + 1)).to_set() =~= texts(
                    self.items@.take(i as int),
                ).to_set().insert(self.items@[i as int]@));
            }
            i += 1;
        }
        proof {
            assert(self.items@.take(self.items@.len() as int) =~= self.items@);
            lemma_is_sorted_listing(texts(r@), self@);
        }
        r
    }
}

/// Inserts `x` at its place in a strictly increasing vector that lacks it.
fn insert_sorted(r: &mut Vec<String>, x: String)
    requires
        sorted_strict(texts(old(r)@)),
        !texts(old(r)@).to_set().contains(x@),
    ensures
        sorted_strict(texts(final(r)@)),
        texts(final(r)@).to_set() == texts(old(r)@).to_set().insert(x@),
        final(r)@.len() == old(r)@.len() + 1,
{
    let ghost t = texts(r@);
    let mut p: usize = 0;
    while p < r.len() && !text_lt(x.as_str(), r[p].as_str())
        invariant
            0 <= p <= r@.len(),
            t == texts(r@),
            sorted_strict(t),
            !t.to_set().contains(x@),
            forall|k: int| 0 <= k < p ==> seq_lt(#[trigger] t[k], x@),
        decreases r@.len() - p,
    {
        proof {
            lemma_lt_total(x@, t[p as int]);
            assert(t.to_set().contains(t[p as int]));
        }
        p += 1;
    }
    proof {
        assert forall|k: int| p <= k < t.len() implies seq_lt(x@, #[trigger] t[k]) by {
            if k > p {
                lemma_lt_transitive(x@, t[p as int], t[k]);
            }
        }
    }
    r.insert(p, x);
    proof {
        let n = texts(r@);
        assert(n =~= t.insert(p as int, x@));
        assert forall|i: int, j: int| 0 <= i < j < n.len() implies seq_lt(#[trigger] n[i], #[trigger] n[j]) by {
            if i < p && j > p {
                lemma_lt_transitive(n[i], x@, n[j]);
            }
        }
        assert(n.to_set() =~= t.to_set().insert(x@)) by {
            assert forall|y: Seq<char>| n.to_set().contains(y) <==> t.to_set().insert(x@).contains(y) by {
                if n.to_set().contains(y) {
                    let a = choose|a: int| 0 <= a < n.len() && n[a] == y;
                    if a < p {
                        assert(t[a] == y);
                    } else if a > p {
                        assert(t[a - 1] == y);
                    }
                }
                if t.to_set().contains(y) && y != x@ {
                    let a = choose|a: int| 0 <= a < t.len() && t[a] == y;
                    if a < p {
                        assert(n[a] == y);
                    } else {
                        assert(n[a + 1] == y);
                    }
                }
                if y == x@ {
                    assert(n[p as int] == y);
                }
            }
        }
    }
}

} // verus!
