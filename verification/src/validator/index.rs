//! The reference index: the definitions of a working set, ordered by name.

use vstd::prelude::*;
use vstd::string::StringSliceAdditionalSpecFns;
use crate::intermediate::toplevel::{definitions_view, DefinitionModel, ToplevelDefinition};
use crate::order::Order;

verus! {

/// `k` is the first place at which `a` and `b` differ, and `a` is the smaller there:
/// either `a` ends at `k`, or its octet at `k` is the smaller one.
pub open spec fn smaller_at(a: Seq<u8>, b: Seq<u8>, k: int) -> bool {
    &&& 0 <= k <= a.len()
    &&& k <= b.len()
    &&& forall|j: int| 0 <= j < k ==> a[j] == b[j]
    &&& (k == a.len() && k < b.len()) || (k < a.len() && k < b.len() && a[k] < b[k])
}

/// Lexicographic order on octet strings.
pub open spec fn octets_lt(a: Seq<u8>, b: Seq<u8>) -> bool {
    exists|k: int| smaller_at(a, b, k)
}

/// The order of names: lexicographic by the octets of their UTF-8 encoding.
pub open spec fn name_lt(a: Seq<char>, b: Seq<char>) -> bool {
    octets_lt(vstd::utf8::encode_utf8(a), vstd::utf8::encode_utf8(b))
}

/// The order on octet strings is transitive.
pub proof fn lemma_octets_lt_transitive(a: Seq<u8>, b: Seq<u8>, c: Seq<u8>)
    requires
        octets_lt(a, b),
        octets_lt(b, c),
    ensures
        octets_lt(a, c),
{
    let k1 = choose|k: int| smaller_at(a, b, k);
    let k2 = choose|k: int| smaller_at(b, c, k);
    let k = if k1 <= k2 { k1 } else { k2 };
    assert(smaller_at(a, c, k));
}

/// No octet string is smaller than itself, and no two are smaller than each other.
pub proof fn lemma_octets_lt_asymmetric(a: Seq<u8>, b: Seq<u8>)
    requires
        octets_lt(a, b),
    ensures
        !octets_lt(b, a),
        a != b,
{
    let k1 = choose|k: int| smaller_at(a, b, k);
    if octets_lt(b, a) {
        let k2 = choose|k: int| smaller_at(b, a, k);
        assert(k1 == k2) by {
            if k1 < k2 {
                assert(b[k1] == a[k1]);
            } else if k2 < k1 {
                assert(a[k2] == b[k2]);
            }
        }
    }
}

/// The order of names is transitive.
pub proof fn lemma_name_lt_transitive(a: Seq<char>, b: Seq<char>, c: Seq<char>)
    requires
        name_lt(a, b),
        name_lt(b, c),
    ensures
        name_lt(a, c),
{
    lemma_octets_lt_transitive(
        vstd::utf8::encode_utf8(a),
        vstd::utf8::encode_utf8(b),
        vstd::utf8::encode_utf8(c),
    );
}

/// A name that is smaller than another is a different name, and not also greater.
pub proof fn lemma_name_lt_asymmetric(a: Seq<char>, b: Seq<char>)
    requires
        name_lt(a, b),
    ensures
        !name_lt(b, a),
        a != b,
{
    lemma_octets_lt_asymmetric(vstd::utf8::encode_utf8(a), vstd::utf8::encode_utf8(b));
}

/// Two octet strings that agree on their first `k` octets are the same, or
/// one of them is the smaller.
proof fn lemma_octets_differ_somewhere(a: Seq<u8>, b: Seq<u8>, k: int)
    requires
        0 <= k <= a.len(),
        k <= b.len(),
        forall|j: int| 0 <= j < k ==> a[j] == b[j],
    ensures
        a == b || octets_lt(a, b) || octets_lt(b, a),
    decreases a.len() - k,
{
    if k == a.len() && k == b.len() {
        assert(a =~= b);
    } else if k == a.len() {
        assert(smaller_at(a, b, k));
    } else if k == b.len() {
        assert(smaller_at(b, a, k));
    } else if a[k] < b[k] {
        assert(smaller_at(a, b, k));
    } else if b[k] < a[k] {
        assert(smaller_at(b, a, k));
    } else {
        lemma_octets_differ_somewhere(a, b, k + 1);
    }
}

/// Of two different names one is the smaller.
pub proof fn lemma_name_lt_total(a: Seq<char>, b: Seq<char>)
    ensures
        a == b || name_lt(a, b) || name_lt(b, a),
{
    lemma_octets_differ_somewhere(vstd::utf8::encode_utf8(a), vstd::utf8::encode_utf8(b), 0);
    vstd::utf8::encode_utf8_decode_utf8(a);
    vstd::utf8::encode_utf8_decode_utf8(b);
}

/// Compares two names octet by octet.
pub fn compare_names(a: &str, b: &str) -> (r: Order)
    ensures
        r == Order::Less <==> name_lt(a@, b@),
        r == Order::Equal <==> a@ == b@,
        r == Order::Greater <==> name_lt(b@, a@),
{
    let x = a.as_bytes();
    let y = b.as_bytes();
    let mut i: usize = 0;
    let mut r = Order::Equal;
    while i < x.len() && i < y.len()
        invariant_except_break
            i <= x.len(),
            i <= y.len(),
            r == Order::Equal,
        invariant
            x@ == a.spec_bytes(),
            y@ == b.spec_bytes(),
            forall|j: int| 0 <= j < i ==> x@[j] == y@[j],
        ensures
            r == Order::Equal ==> (i == x.len() || i == y.len()) && i <= x.len() && i <= y.len(),
            r == Order::Less ==> smaller_at(x@, y@, i as int),
            r == Order::Greater ==> smaller_at(y@, x@, i as int),
        decreases x.len() - i,
    {
        if x[i] < y[i] {
            r = Order::Less;
            break ;
        }
        if y[i] < x[i] {
            r = Order::Greater;
            break ;
        }
        i += 1;
    }
    if r == Order::Equal {
        if i < y.len() {
            assert(smaller_at(x@, y@, i as int));
            r = Order::Less;
        } else if i < x.len() {
            assert(smaller_at(y@, x@, i as int));
            r = Order::Greater;
        } else {
            assert(x@ =~= y@);
        }
    }
    proof {
        vstd::utf8::encode_utf8_decode_utf8(a@);
        vstd::utf8::encode_utf8_decode_utf8(b@);
        if r == Order::Less {
            lemma_name_lt_asymmetric(a@, b@);
        }
        if r == Order::Greater {
            lemma_name_lt_asymmetric(b@, a@);
        }
        if a@ == b@ && name_lt(a@, b@) {
            lemma_name_lt_asymmetric(a@, b@);
        }
    }
    r
}

/// Whether two names are the same.
pub fn same_name(a: &str, b: &str) -> (r: bool)
    ensures
        r == (a@ == b@),
{
    compare_names(a, b) == Order::Equal
}

/// The result of `f` on the first item of `s` for which it is not `None`.
pub open spec fn first_some<T, R>(s: Seq<T>, f: spec_fn(T) -> Option<R>) -> Option<R>
    decreases s.len(),
{
    if s.len() == 0 {
        None
    } else {
        match first_some(s.drop_last(), f) {
            Some(r) => Some(r),
            None => f(s.last()),
        }
    }
}

/// One more item is looked at only when the items before it gave nothing.
pub proof fn lemma_first_some_step<T, R>(s: Seq<T>, f: spec_fn(T) -> Option<R>, i: int)
    requires
        0 <= i < s.len(),
    ensures
        first_some(s.take(i + 1), f) == match first_some(s.take(i), f) {
            Some(r) => Some(r),
            None => f(s[i]),
        },
{
    assert(s.take(i + 1).drop_last() =~= s.take(i));
}

/// What was found in a prefix is what is found in the whole.
pub proof fn lemma_first_some_prefix<T, R>(s: Seq<T>, f: spec_fn(T) -> Option<R>, i: int)
    requires
        0 <= i <= s.len(),
        first_some(s.take(i), f) is Some,
    ensures
        first_some(s, f) == first_some(s.take(i), f),
    decreases s.len() - i,
{
    if i == s.len() {
        assert(s.take(i) =~= s);
    } else {
        lemma_first_some_step(s, f, i);
        lemma_first_some_prefix(s, f, i + 1);
    }
}

/// Nothing is found where `f` gives nothing on every item, and only there.
pub proof fn lemma_first_some_none<T, R>(s: Seq<T>, f: spec_fn(T) -> Option<R>)
    ensures
        first_some(s, f) is None <==> forall|j: int| 0 <= j < s.len() ==> f(#[trigger] s[j]) is None,
    decreases s.len(),
{
    if s.len() > 0 {
        lemma_first_some_none(s.drop_last(), f);
        if first_some(s, f) is None {
            assert forall|j: int| 0 <= j < s.len() implies f(#[trigger] s[j]) is None by {
                if j < s.len() - 1 {
                    assert(s.drop_last()[j] == s[j]);
                }
            }
        } else {
            if first_some(s.drop_last(), f) is Some {
                let j = choose|j: int| 0 <= j < s.drop_last().len() && f(#[trigger] s.drop_last()[j]) is Some;
                assert(s[j] == s.drop_last()[j]);
            }
        }
    }
}

/// The definition itself if it goes by `name`.
pub open spec fn named(name: Seq<char>) -> spec_fn(DefinitionModel) -> Option<DefinitionModel> {
    |d: DefinitionModel|
        if d.name() == name {
            Some(d)
        } else {
            None
        }
}

/// The first definition of `s` that goes by `name`.
pub open spec fn lookup(s: Seq<DefinitionModel>, name: Seq<char>) -> Option<DefinitionModel> {
    first_some(s, named(name))
}

/// The definitions stand in strictly ascending order of their names.
pub open spec fn sorted_by_name(s: Seq<DefinitionModel>) -> bool {
    forall|i: int, j: int| 0 <= i < j < s.len() ==> name_lt(#[trigger] s[i].name(), #[trigger] s[j].name())
}

/// In a sorted sequence a name is held by one definition at most, and looking
/// the name up finds that one.
pub proof fn lemma_lookup_sorted(s: Seq<DefinitionModel>, i: int)
    requires
        sorted_by_name(s),
        0 <= i < s.len(),
    ensures
        lookup(s, s[i].name()) == Some(s[i]),
        forall|j: int| 0 <= j < s.len() && j != i ==> (#[trigger] s[j]).name() != s[i].name(),
{
    let name = s[i].name();
    assert forall|j: int| 0 <= j < s.len() && j != i implies (#[trigger] s[j]).name() != name by {
        if j < i {
            lemma_name_lt_asymmetric(s[j].name(), s[i].name());
        } else {
            lemma_name_lt_asymmetric(s[i].name(), s[j].name());
        }
    }
    lemma_first_some_none(s.take(i), named(name));
    lemma_first_some_step(s, named(name), i);
    lemma_first_some_prefix(s, named(name), i + 1);
}

/// A name that no definition holds is not found.
pub proof fn lemma_lookup_absent(s: Seq<DefinitionModel>, name: Seq<char>)
    ensures
        lookup(s, name) is None <==> forall|j: int| 0 <= j < s.len() ==> (#[trigger] s[j]).name() != name,
        lookup(s, name) matches Some(d) ==> d.name() == name && s.contains(d),
    decreases s.len(),
{
    lemma_first_some_none(s, named(name));
    if s.len() > 0 {
        lemma_lookup_absent(s.drop_last(), name);
        if let Some(d) = lookup(s.drop_last(), name) {
            let k = choose|k: int| 0 <= k < s.drop_last().len() && s.drop_last()[k] == d;
            assert(s[k] == d);
        } else if lookup(s, name) is Some {
            assert(s[s.len() - 1] == s.last());
        }
    }
}

/// In a sorted sequence, looking a name up finds `d` exactly if `d` is in
/// the sequence and goes by that name.
pub proof fn lemma_lookup_iff(s: Seq<DefinitionModel>, name: Seq<char>, d: DefinitionModel)
    requires
        sorted_by_name(s),
    ensures
        lookup(s, name) == Some(d) <==> (d.name() == name && s.contains(d)),
{
    lemma_lookup_absent(s, name);
    if d.name() == name && s.contains(d) {
        let k = choose|k: int| 0 <= k < s.len() && s[k] == d;
        lemma_lookup_sorted(s, k);
    }
}

/// Two sorted sequences that hold the same definitions under every name but
/// `except` give the same answer for every such name.
pub proof fn lemma_lookup_same(s: Seq<DefinitionModel>, t: Seq<DefinitionModel>, except: Seq<char>)
    requires
        sorted_by_name(s),
        sorted_by_name(t),
        forall|d: DefinitionModel| d.name() != except ==> (s.contains(d) <==> t.contains(d)),
    ensures
        forall|n: Seq<char>| n != except ==> lookup(s, n) == lookup(t, n),
{
    assert forall|n: Seq<char>| n != except implies lookup(s, n) == lookup(t, n) by {
        lemma_lookup_absent(s, n);
        lemma_lookup_absent(t, n);
        if let Some(d) = lookup(s, n) {
            lemma_lookup_iff(t, n, d);
        } else if let Some(d) = lookup(t, n) {
            lemma_lookup_iff(s, n, d);
        }
    }
}

/// Putting a definition where its name belongs keeps the order, makes its
/// name find it, and leaves every other name as it was.
pub proof fn lemma_insert_lookup(s: Seq<DefinitionModel>, i: int, d: DefinitionModel)
    requires
        sorted_by_name(s),
        0 <= i <= s.len(),
        forall|j: int| 0 <= j < i ==> name_lt(#[trigger] s[j].name(), d.name()),
        forall|j: int| i <= j < s.len() ==> name_lt(d.name(), #[trigger] s[j].name()),
    ensures
        sorted_by_name(s.insert(i, d)),
        lookup(s.insert(i, d), d.name()) == Some(d),
        lookup(s, d.name()) is None,
        forall|n: Seq<char>| n != d.name() ==> lookup(s.insert(i, d), n) == lookup(s, n),
{
    let t = s.insert(i, d);
    assert forall|a: int, b: int| 0 <= a < b < t.len() implies name_lt(
        #[trigger] t[a].name(),
        #[trigger] t[b].name(),
    ) by {
        if a < i && b > i {
            assert(t[a] == s[a] && t[b] == s[b - 1]);
        } else if a < i && b < i {
            assert(t[a] == s[a] && t[b] == s[b]);
        } else if a > i {
            assert(t[a] == s[a - 1] && t[b] == s[b - 1]);
        } else if a == i {
            assert(t[b] == s[b - 1]);
        } else {
            assert(t[a] == s[a]);
        }
    }
    lemma_lookup_sorted(t, i);
    lemma_lookup_absent(s, d.name());
    assert forall|j: int| 0 <= j < s.len() implies (#[trigger] s[j]).name() != d.name() by {
        if j < i {
            lemma_name_lt_asymmetric(s[j].name(), d.name());
        } else {
            lemma_name_lt_asymmetric(d.name(), s[j].name());
        }
    }
    assert forall|e: DefinitionModel| e.name() != d.name() implies (s.contains(e) <==> t.contains(e)) by {
        if s.contains(e) {
            let k = choose|k: int| 0 <= k < s.len() && s[k] == e;
            let kt = if k < i { k } else { k + 1 };
            assert(t[kt] == e);
        }
        if t.contains(e) {
            let k = choose|k: int| 0 <= k < t.len() && t[k] == e;
            let ks = if k < i { k } else { k - 1 };
            assert(s[ks] == e);
        }
    }
    lemma_lookup_same(t, s, d.name());
}

/// Taking a definition out keeps the order, makes its name find nothing, and
/// leaves every other name as it was.
pub proof fn lemma_remove_lookup(s: Seq<DefinitionModel>, i: int)
    requires
        sorted_by_name(s),
        0 <= i < s.len(),
    ensures
        sorted_by_name(s.remove(i)),
        lookup(s.remove(i), s[i].name()) is None,
        lookup(s, s[i].name()) == Some(s[i]),
        forall|n: Seq<char>| n != s[i].name() ==> lookup(s.remove(i), n) == lookup(s, n),
        forall|j: int| 0 <= j < i ==> name_lt(#[trigger] s.remove(i)[j].name(), s[i].name()),
        forall|j: int| i <= j < s.remove(i).len() ==> name_lt(s[i].name(), #[trigger] s.remove(i)[j].name()),
{
    let t = s.remove(i);
    assert forall|a: int, b: int| 0 <= a < b < t.len() implies name_lt(
        #[trigger] t[a].name(),
        #[trigger] t[b].name(),
    ) by {
        let sa = if a < i { a } else { a + 1 };
        let sb = if b < i { b } else { b + 1 };
        assert(t[a] == s[sa] && t[b] == s[sb]);
    }
    lemma_lookup_sorted(s, i);
    lemma_lookup_absent(t, s[i].name());
    assert forall|j: int| 0 <= j < t.len() implies (#[trigger] t[j]).name() != s[i].name() by {
        let sj = if j < i { j } else { j + 1 };
        assert(t[j] == s[sj]);
    }
    assert forall|e: DefinitionModel| e.name() != s[i].name() implies (s.contains(e) <==> t.contains(e)) by {
        if s.contains(e) {
            let k = choose|k: int| 0 <= k < s.len() && s[k] == e;
            let kt = if k < i { k } else { k - 1 };
            assert(t[kt] == e);
        }
        if t.contains(e) {
            let k = choose|k: int| 0 <= k < t.len() && t[k] == e;
            let ks = if k < i { k } else { k + 1 };
            assert(s[ks] == e);
        }
    }
    lemma_lookup_same(t, s, s[i].name());
    assert forall|j: int| 0 <= j < i implies name_lt(#[trigger] t[j].name(), s[i].name()) by {
        assert(t[j] == s[j]);
    }
    assert forall|j: int| i <= j < t.len() implies name_lt(s[i].name(), #[trigger] t[j].name()) by {
        assert(t[j] == s[j + 1]);
    }
}

/// The definitions of a working set, in ascending order of their names.
#[derive(Debug, PartialEq)]
pub struct ReferenceIndex {
    entries: Vec<ToplevelDefinition>,
}

impl View for ReferenceIndex {
    type V = Seq<DefinitionModel>;

    closed spec fn view(&self) -> Seq<DefinitionModel> {
        definitions_view(self.entries@)
    }
}

impl ReferenceIndex {
    /// The index holds its definitions in strictly ascending order of their names.
    pub open spec fn wf(&self) -> bool {
        sorted_by_name(self@)
    }

    /// An index without definitions.
    pub fn new() -> (r: ReferenceIndex)
        ensures
            r.wf(),
            r@ == Seq::<DefinitionModel>::empty(),
    {
        let r = ReferenceIndex { entries: Vec::new() };
        assert(r@ =~= Seq::<DefinitionModel>::empty());
        r
    }

    /// The number of definitions.
    pub fn len(&self) -> (n: usize)
        ensures
            n == self@.len(),
    {
        self.entries.len()
    }

    /// The definition at position `i` in the order of names.
    pub fn entry(&self, i: usize) -> (r: &ToplevelDefinition)
        requires
            i < self@.len(),
        ensures
            r@ == self@[i as int],
    {
        &self.entries[i]
    }

    /// The position of the definition that goes by `name`.
    pub fn position(&self, name: &str) -> (r: Option<usize>)
        ensures
            match r {
                Some(i) => i < self@.len() && self@[i as int].name() == name@ && lookup(self@, name@) == Some(
                    self@[i as int],
                ),
                None => lookup(self@, name@) is None,
            },
    {
        let mut i: usize = 0;
        while i < self.entries.len()
            invariant
                i <= self.entries.len(),
                lookup(self@.take(i as int), name@) is None,
            decreases self.entries.len() - i,
        {
            proof {
                lemma_first_some_step(self@, named(name@), i as int);
            }
            if same_name(self.entries[i].name().as_str(), name) {
                proof {
                    lemma_first_some_prefix(self@, named(name@), i + 1);
                }
                return Some(i);
            }
            i += 1;
        }
        assert(self@.take(i as int) =~= self@);
        None
    }

    /// Looks up the definition that goes by `name`.
    pub fn get(&self, name: &str) -> (r: Option<&ToplevelDefinition>)
        ensures
            match r {
                Some(d) => lookup(self@, name@) == Some(d@),
                None => lookup(self@, name@) is None,
            },
    {
        match self.position(name) {
            Some(i) => Some(&self.entries[i]),
            None => None,
        }
    }

    /// Takes the definition at position `i` out of the index.
    pub fn remove_at(&mut self, i: usize) -> (r: ToplevelDefinition)
        requires
            old(self).wf(),
            i < old(self)@.len(),
        ensures
            final(self).wf(),
            final(self)@ == old(self)@.remove(i as int),
            r@ == old(self)@[i as int],
    {
        let r = self.entries.remove(i);
        assert(self@ =~= old(self)@.remove(i as int));
        proof {
            lemma_remove_lookup(old(self)@, i as int);
        }
        r
    }

    /// Puts a definition into the index at position `i`, where its name belongs.
    pub fn insert_at(&mut self, i: usize, tld: ToplevelDefinition)
        requires
            old(self).wf(),
            i <= old(self)@.len(),
            forall|j: int| 0 <= j < i ==> name_lt(#[trigger] old(self)@[j].name(), tld@.name()),
            forall|j: int| i <= j < old(self)@.len() ==> name_lt(tld@.name(), #[trigger] old(self)@[j].name()),
        ensures
            final(self).wf(),
            final(self)@ == old(self)@.insert(i as int, tld@),
    {
        proof {
            lemma_insert_lookup(self@, i as int, tld@);
        }
        self.entries.insert(i, tld);
        assert(self@ =~= old(self)@.insert(i as int, tld@));
    }

    /// Removes the definition that goes by `name`, if there is one, and hands it out.
    pub fn remove(&mut self, name: &str) -> (r: Option<ToplevelDefinition>)
        requires
            old(self).wf(),
        ensures
            final(self).wf(),
            lookup(final(self)@, name@) is None,
            forall|n: Seq<char>| n != name@ ==> lookup(final(self)@, n) == lookup(old(self)@, n),
            match r {
                Some(d) => lookup(old(self)@, name@) == Some(d@) && final(self)@.len() + 1 == old(self)@.len(),
                None => lookup(old(self)@, name@) is None && final(self)@ == old(self)@,
            },
    {
        match self.position(name) {
            Some(i) => {
                proof {
                    lemma_remove_lookup(self@, i as int);
                }
                Some(self.remove_at(i))
            },
            None => None,
        }
    }

    /// The position at which a definition of this name stands or would have to
    /// stand, and whether one stands there.
    fn slot(&self, name: &str) -> (r: (usize, bool))
        requires
            self.wf(),
        ensures
            r.0 <= self@.len(),
            forall|j: int| 0 <= j < r.0 ==> name_lt(#[trigger] self@[j].name(), name@),
            r.1 ==> r.0 < self@.len() && self@[r.0 as int].name() == name@,
            !r.1 ==> forall|j: int| r.0 <= j < self@.len() ==> name_lt(name@, #[trigger] self@[j].name()),
    {
        let mut i: usize = 0;
        while i < self.entries.len()
            invariant
                i <= self@.len(),
                self@.len() == self.entries.len(),
                forall|j: int| 0 <= j < i ==> name_lt(#[trigger] self@[j].name(), name@),
                forall|j: int| 0 <= j < self@.len() ==> self@[j] == (#[trigger] self.entries[j])@,
                self.wf(),
            decreases self.entries.len() - i,
        {
            match compare_names(self.entries[i].name().as_str(), name) {
                Order::Less => {
                    i += 1;
                },
                Order::Equal => {
                    return (i, true);
                },
                Order::Greater => {
                    proof {
                        assert forall|j: int| i <= j < self@.len() implies name_lt(
                            name@,
                            #[trigger] self@[j].name(),
                        ) by {
                            if j > i {
                                assert(name_lt(self@[i as int].name(), self@[j].name()));
                                lemma_name_lt_transitive(name@, self@[i as int].name(), self@[j].name());
                            }
                        }
                    }
                    return (i, false);
                },
            }
        }
        (i, false)
    }

    /// Puts a definition into the index. A definition that went by the same
    /// name before is displaced and handed out.
    pub fn insert(&mut self, tld: ToplevelDefinition) -> (r: Option<ToplevelDefinition>)
        requires
            old(self).wf(),
        ensures
            final(self).wf(),
            lookup(final(self)@, tld@.name()) == Some(tld@),
            forall|n: Seq<char>| n != tld@.name() ==> lookup(final(self)@, n) == lookup(old(self)@, n),
            match r {
                Some(d) => lookup(old(self)@, tld@.name()) == Some(d@) && final(self)@.len() == old(self)@.len(),
                None => lookup(old(self)@, tld@.name()) is None && final(self)@.len() == old(self)@.len() + 1,
            },
    {
        let (i, present) = self.slot(tld.name().as_str());
        let displaced = if present {
            proof {
                lemma_remove_lookup(self@, i as int);
            }
            Some(self.remove_at(i))
        } else {
            None
        };
        proof {
            lemma_insert_lookup(self@, i as int, tld@);
        }
        self.insert_at(i, tld);
        displaced
    }

    /// The definitions in the order of their names; the index is used up.
    pub fn into_entries(self) -> (r: Vec<ToplevelDefinition>)
        ensures
            definitions_view(r@) == self@,
    {
        self.entries
    }
}

} // verus!
