//! The value tree: a closed sum of scalar kinds and two container kinds,
//! with a canonical, kind-aware equality.
use vstd::arithmetic::div_mod::lemma_add_mod_noop_right;
use vstd::prelude::*;

use crate::blob::{blob_hash, Blob};
use crate::hashing::{feed_hasher, mix, mix_exec, text_hash, hash_text, word};
use crate::decimal::{decimal_hash, lemma_decimal_hash_consistent, same_number, Decimal};
use crate::float_bits::{decompose, triplet_of};
use crate::id::{id_hash, Id};
use crate::temporal::{date_hash, date_time_hash, time_hash, Date, DateTime, Time};

verus! {

broadcast use vstd::std_specs::vec::group_vec_axioms;

/// One node of a value tree. Each container owns its children.
#[derive(Debug)]
pub enum Value {
    Bool(bool),
    Int(i64),
    /// The IEEE-754 binary64 bit pattern of a floating-point number.
    Float(u64),
    Decimal(Decimal),
    String(String),
    Date(Date),
    Time(Time),
    /// An instant in UTC.
    DateTime(DateTime),
    Binary(Blob),
    /// Children in order; equal children may repeat.
    List(Vec<Value>),
    /// Children under their keys, in no meaningful order.
    Struct(Fields),
}

/// The entries of a struct value: one per key.
#[derive(Debug)]
pub struct Fields {
    entries: Vec<(Id, Value)>,
}

impl View for Fields {
    type V = Seq<(Id, Value)>;

    closed spec fn view(&self) -> Seq<(Id, Value)> {
        self.entries@
    }
}

impl Fields {
    /// No two entries share a key.
    #[verifier::type_invariant]
    closed spec fn wf(&self) -> bool {
        keys_unique(self.entries@)
    }

    /// The entries, in the order they are held.
    pub fn as_slice(&self) -> (r: &[(Id, Value)])
        ensures
            r@ == self@,
    {
        self.entries.as_slice()
    }

    pub fn len(&self) -> (r: usize)
        ensures
            r == self@.len(),
    {
        self.entries.len()
    }
}

/// Whether `fs` has an entry with the key of `e` and a value equal to
/// the value of `e`.
pub open spec fn covered_by(e: (Id, Value), fs: Seq<(Id, Value)>) -> bool
    decreases e, fs,
{
    exists|j: int| 0 <= j < fs.len() && e.0@ == fs[j].0@ && value_eq(e.1, #[trigger] fs[j].1)
}

/// Whether `es` has an entry with the key of `f` and a value equal to the
/// value of `f` (the value of `es` on the left).
pub open spec fn covers(es: Seq<(Id, Value)>, f: (Id, Value)) -> bool
    decreases es, f,
{
    exists|i: int| 0 <= i < es.len() && es[i].0@ == f.0@ && value_eq(#[trigger] es[i].1, f.1)
}

/// Whether `es` and `fs` hold the same keys with equal values: every entry
/// of each has an entry of the other with the same key and an equal value.
pub open spec fn entries_eq(es: Seq<(Id, Value)>, fs: Seq<(Id, Value)>) -> bool
    decreases es, fs,
{
    &&& forall|i: int| 0 <= i < es.len() ==> covered_by(#[trigger] es[i], fs)
    &&& forall|j: int| 0 <= j < fs.len() ==> covers(es, #[trigger] fs[j])
}

/// The key of an entry.
pub open spec fn key_of(e: (Id, Value)) -> (Seq<char>, Option<Seq<char>>) {
    e.0@
}

/// Whether no two entries share a key.
pub open spec fn keys_unique(es: Seq<(Id, Value)>) -> bool {
    forall|i: int, j: int|
        0 <= i < j < es.len() ==> key_of(#[trigger] es[i]) != key_of(#[trigger] es[j])
}

/// Whether some entry of `es` has the key `k`.
pub open spec fn has_key(es: Seq<(Id, Value)>, k: (Seq<char>, Option<Seq<char>>)) -> bool {
    exists|j: int| 0 <= j < es.len() && key_of(#[trigger] es[j]) == k
}

/// Whether no entry after position `i` of `es` has the key of entry `i`.
pub open spec fn is_last_with_key(es: Seq<(Id, Value)>, i: int) -> bool {
    forall|k: int| i < k < es.len() ==> key_of(#[trigger] es[k]) != key_of(es[i])
}

/// Whether `e` is an entry of `es` that no later entry overrides.
pub open spec fn survives(e: (Id, Value), es: Seq<(Id, Value)>) -> bool {
    exists|i: int| 0 <= i < es.len() && es[i] == e && is_last_with_key(es, i)
}

/// Whether `out` holds, once each, the entries of `es` that no later entry
/// overrides: one entry per key, the last one given for it.
pub open spec fn last_entries(out: Seq<(Id, Value)>, es: Seq<(Id, Value)>) -> bool {
    &&& keys_unique(out)
    &&& forall|j: int| 0 <= j < out.len() ==> survives(#[trigger] out[j], es)
    &&& forall|i: int| 0 <= i < es.len() ==> has_key(out, key_of(#[trigger] es[i]))
}

/// Whether every struct in the tree has at most one entry per key and every
/// decimal a scale of at most 28. Every value that exec code holds is so, by
/// the type invariants of `Fields` and `Decimal`; proofs about values given
/// as spec values state it, since Verus applies type invariants to exec
/// values only.
pub open spec fn value_wf(v: Value) -> bool
    decreases v,
{
    match v {
        Value::List(xs) => forall|i: int| 0 <= i < xs@.len() ==> value_wf(#[trigger] xs@[i]),
        Value::Struct(es) => keys_unique(es@) && forall|i: int|
            0 <= i < es@.len() ==> value_wf(#[trigger] es@[i].1),
        Value::Decimal(d) => d.spec_scale() <= 28,
        _ => true,
    }
}

/// A hash of values that agrees with `value_eq`: each kind mixes in a tag
/// and what its equality looks at. Floats hash their triplet, decimals the
/// number they denote, lists their elements in order, and structs the sum of
/// their entries' hashes, which no order of entries changes.
pub open spec fn value_hash(v: Value) -> u64
    decreases v, 0int,
{
    match v {
        Value::Bool(b) => mix(1, if b { 1 } else { 0 }),
        Value::Int(i) => mix(2, i as u64),
        Value::Float(x) => {
            let t = triplet_of(x);
            mix(mix(mix(3, t.0), t.1 as u64), t.2 as u64)
        },
        Value::Decimal(d) => mix(4, decimal_hash(d.spec_mantissa(), d.spec_scale())),
        Value::String(s) => mix(5, text_hash(s@)),
        Value::Date(d) => mix(6, date_hash(d@)),
        Value::Time(t) => mix(7, time_hash(t@)),
        Value::DateTime(t) => mix(8, date_time_hash(t@)),
        Value::Binary(b) => mix(9, blob_hash(b@)),
        Value::List(xs) => mix(10, list_hash(xs@, xs@.len() as int)),
        Value::Struct(es) => mix(11, entries_hash(es@)),
    }
}

/// The hash of the first `n` elements of `xs`, mixed in order.
pub open spec fn list_hash(xs: Seq<Value>, n: int) -> u64
    decreases xs, n,
{
    if n <= 0 || n > xs.len() {
        0
    } else {
        mix(list_hash(xs, n - 1), value_hash(xs[n - 1]))
    }
}

/// The hash of one entry.
pub open spec fn entry_hash(e: (Id, Value)) -> u64
    decreases e, 0int,
{
    mix(id_hash(e.0@), value_hash(e.1))
}

/// The sum, modulo 2^64, of the hashes of the entries of `es`.
pub open spec fn entries_hash(es: Seq<(Id, Value)>) -> u64
    decreases es, 0int,
{
    if es.len() == 0 {
        0
    } else {
        ((entries_hash(es.drop_last()) as int + entry_hash(es[es.len() - 1]) as int) % word()) as u64
    }
}

/// The canonical equality of values. Values of different kinds are never
/// equal. Floats compare by their `(mantissa, exponent, sign)` triplets,
/// decimals by the number they denote, lists element by element in order,
/// structs by key whatever the order of their entries.
pub open spec fn value_eq(a: Value, b: Value) -> bool
    decreases a, b,
{
    match a {
        Value::Bool(x) => b is Bool && x == b->Bool_0,
        Value::Int(x) => b is Int && x == b->Int_0,
        Value::Float(x) => b is Float && triplet_of(x) == triplet_of(b->Float_0),
        Value::Decimal(x) => b is Decimal && same_number(
            x.spec_mantissa(),
            x.spec_scale(),
            b->Decimal_0.spec_mantissa(),
            b->Decimal_0.spec_scale(),
        ),
        Value::String(x) => b is String && x@ == b->String_0@,
        Value::Date(x) => b is Date && x@ == b->Date_0@,
        Value::Time(x) => b is Time && x@ == b->Time_0@,
        Value::DateTime(x) => b is DateTime && x@ == b->DateTime_0@,
        Value::Binary(x) => b is Binary && x@ == b->Binary_0@,
        Value::List(xs) => match b {
            Value::List(ys) => xs@.len() == ys@.len() && forall|i: int|
                0 <= i < xs@.len() ==> value_eq(#[trigger] xs@[i], ys@[i]),
            _ => false,
        },
        Value::Struct(es) => match b {
            Value::Struct(fs) => entries_eq(es@, fs@),
            _ => false,
        },
    }
}

/// Every value equals itself, NaN payloads included.
pub proof fn lemma_value_eq_reflexive(v: Value)
    ensures
        value_eq(v, v),
    decreases v,
{
    match v {
        Value::List(xs) => {
            assert forall|i: int| 0 <= i < xs@.len() implies value_eq(#[trigger] xs@[i], xs@[i]) by {
                assert(decreases_to!(v => xs));
                assert(decreases_to!(xs => xs@));
                assert(decreases_to!(xs@ => xs@[i]));
                lemma_value_eq_reflexive(xs@[i]);
            }
        },
        Value::Struct(es) => {
            assert forall|i: int| 0 <= i < es@.len() implies value_eq(
                #[trigger] es@[i].1,
                es@[i].1,
            ) by {
                assert(decreases_to!(v => es));
                assert(decreases_to!(es => es@));
                assert(decreases_to!(es@ => es@[i]));
                assert(decreases_to!(es@[i] => es@[i].1));
                lemma_value_eq_reflexive(es@[i].1);
            }
            assert forall|i: int| 0 <= i < es@.len() implies covered_by(#[trigger] es@[i], es@) by {
                assert(value_eq(es@[i].1, es@[i].1));
            }
            assert forall|j: int| 0 <= j < es@.len() implies covers(es@, #[trigger] es@[j]) by {
                assert(value_eq(es@[j].1, es@[j].1));
            }
            assert(entries_eq(es@, es@));
        },
        _ => {},
    }
}

/// Where keys are unique, `survives` picks out the entry itself.
proof fn lemma_survivor_is_member(out: Seq<(Id, Value)>, es: Seq<(Id, Value)>, e: (Id, Value))
    requires
        keys_unique(es),
        last_entries(out, es),
        es.contains(e),
    ensures
        exists|m: int| 0 <= m < out.len() && #[trigger] out[m] == e,
{
    let k = choose|k: int| 0 <= k < es.len() && es[k] == e;
    assert(has_key(out, key_of(es[k])));
    let m = choose|m: int| 0 <= m < out.len() && key_of(#[trigger] out[m]) == key_of(es[k]);
    assert(survives(out[m], es));
    let k2 = choose|k2: int| 0 <= k2 < es.len() && es[k2] == out[m] && is_last_with_key(es, k2);
    if k2 < k {
        assert(key_of(es[k2]) != key_of(es[k]));
    } else if k < k2 {
        assert(key_of(es[k]) != key_of(es[k2]));
    }
    assert(out[m] == e);
}

/// A struct built from entries whose values are well formed is well formed.
proof fn lemma_built_struct_wf(v: Value, es: Seq<(Id, Value)>)
    requires
        v is Struct,
        last_entries(v->Struct_0@, es),
        forall|i: int| 0 <= i < es.len() ==> value_wf(#[trigger] es[i].1),
    ensures
        value_wf(v),
{
    let xs = v->Struct_0@;
    assert forall|i: int| 0 <= i < xs.len() implies value_wf(#[trigger] xs[i].1) by {
        assert(survives(xs[i], es));
        let k = choose|k: int| 0 <= k < es.len() && es[k] == xs[i] && is_last_with_key(es, k);
        assert(value_wf(es[k].1));
    }
}

/// Building a struct from the same entries with distinct keys, in any
/// order, gives equal structs with equal hashes.
#[verifier::rlimit(80)]
pub proof fn law_struct_entry_order(a: Seq<(Id, Value)>, b: Seq<(Id, Value)>, va: Value, vb: Value)
    requires
        keys_unique(a),
        keys_unique(b),
        a.to_multiset() =~= b.to_multiset(),
        forall|i: int| 0 <= i < a.len() ==> value_wf(#[trigger] a[i].1),
        forall|i: int| 0 <= i < b.len() ==> value_wf(#[trigger] b[i].1),
        va is Struct,
        vb is Struct,
        last_entries(va->Struct_0@, a),
        last_entries(vb->Struct_0@, b),
    ensures
        value_eq(va, vb),
        value_hash(va) == value_hash(vb),
{
    broadcast use vstd::seq_lib::to_multiset_contains;

    let xs = va->Struct_0@;
    let ys = vb->Struct_0@;
    assert forall|i: int| 0 <= i < xs.len() implies covered_by(#[trigger] xs[i], ys) by {
        assert(survives(xs[i], a));
        let k = choose|k: int| 0 <= k < a.len() && a[k] == xs[i] && is_last_with_key(a, k);
        assert(a.contains(xs[i]));
        assert(b.to_multiset().count(xs[i]) > 0);
        assert(b.contains(xs[i]));
        lemma_survivor_is_member(ys, b, xs[i]);
        let m = choose|m: int| 0 <= m < ys.len() && #[trigger] ys[m] == xs[i];
        lemma_value_eq_reflexive(xs[i].1);
        assert(xs[i].0@ == ys[m].0@ && value_eq(xs[i].1, ys[m].1));
    }
    assert forall|j: int| 0 <= j < ys.len() implies covers(xs, #[trigger] ys[j]) by {
        assert(survives(ys[j], b));
        let k = choose|k: int| 0 <= k < b.len() && b[k] == ys[j] && is_last_with_key(b, k);
        assert(b.contains(ys[j]));
        assert(a.to_multiset().count(ys[j]) > 0);
        assert(a.contains(ys[j]));
        lemma_survivor_is_member(xs, a, ys[j]);
        let m = choose|m: int| 0 <= m < xs.len() && #[trigger] xs[m] == ys[j];
        lemma_value_eq_reflexive(ys[j].1);
        assert(xs[m].0@ == ys[j].0@ && value_eq(xs[m].1, ys[j].1));
    }
    assert(entries_eq(xs, ys));
    lemma_built_struct_wf(va, a);
    lemma_built_struct_wf(vb, b);
    law_equal_values_hash_alike(va, vb);
}

/// Lists are compared in order: where two lists of the same length hold
/// unequal values at some position, as a reordering of unequal values does,
/// the lists are unequal.
pub proof fn law_list_order_matters(xs: Vec<Value>, ys: Vec<Value>, i: int)
    requires
        0 <= i < xs@.len(),
        xs@.len() == ys@.len(),
        !value_eq(xs@[i], ys@[i]),
    ensures
        !value_eq(Value::List(xs), Value::List(ys)),
{
}

/// Two floating-point payloads are equal values exactly when their
/// triplets agree, which is exactly when their bit patterns agree.
pub proof fn law_float_eq_is_triplet_eq(x: u64, y: u64)
    ensures
        value_eq(Value::Float(x), Value::Float(y)) <==> triplet_of(x) == triplet_of(y),
        value_eq(Value::Float(x), Value::Float(y)) <==> x == y,
{
    crate::float_bits::lemma_triplet_injective(x, y);
}

/// Taking one entry out of a sum of entry hashes takes its hash out.
proof fn lemma_entries_hash_remove(s: Seq<(Id, Value)>, k: int)
    requires
        0 <= k < s.len(),
    ensures
        entries_hash(s) as int == (entries_hash(s.remove(k)) as int + entry_hash(s[k]) as int)
            % word(),
    decreases s.len(),
{
    let n = s.len() as int;
    if k == n - 1 {
        assert(s.remove(k) =~= s.drop_last());
    } else {
        let d = s.drop_last();
        lemma_entries_hash_remove(d, k);
        assert(s.remove(k).drop_last() =~= d.remove(k));
        assert(s.remove(k)[s.remove(k).len() - 1] == s[n - 1]);
        let a = entries_hash(d.remove(k)) as int;
        let x = entry_hash(s[k]) as int;
        let y = entry_hash(s[n - 1]) as int;
        let w = word();
        lemma_add_mod_noop_right(y, a + x, w);
        lemma_add_mod_noop_right(x, a + y, w);
        assert(entries_hash(s) as int == ((a + x) % w + y) % w);
        assert(entries_hash(s.remove(k)) as int == (a + y) % w);
        assert((y + (a + x) % w) % w == (y + (a + x)) % w);
        assert((x + (a + y) % w) % w == (x + (a + y)) % w);
    }
}

/// Whether `fs` has an entry with the key and the entry hash of `e`.
pub open spec fn hash_matched_in(e: (Id, Value), fs: Seq<(Id, Value)>) -> bool {
    exists|j: int|
        0 <= j < fs.len() && key_of(#[trigger] fs[j]) == key_of(e) && entry_hash(fs[j])
            == entry_hash(e)
}

/// Two entry sequences with unique keys, whose entries pair up key by key
/// with equal entry hashes, have the same sum of entry hashes.
#[verifier::rlimit(80)]
proof fn lemma_entries_hash_matched(es: Seq<(Id, Value)>, fs: Seq<(Id, Value)>)
    requires
        keys_unique(es),
        keys_unique(fs),
        forall|i: int| 0 <= i < es.len() ==> hash_matched_in(#[trigger] es[i], fs),
        forall|j: int| 0 <= j < fs.len() ==> has_key(es, key_of(#[trigger] fs[j])),
    ensures
        entries_hash(es) == entries_hash(fs),
    decreases es.len(),
{
    if es.len() == 0 {
        if fs.len() > 0 {
            assert(has_key(es, key_of(fs[0])));
        }
    } else {
        let n = es.len() - 1;
        let e = es[n];
        assert(hash_matched_in(es[n], fs));
        let j = choose|j: int|
            0 <= j < fs.len() && key_of(#[trigger] fs[j]) == key_of(e) && entry_hash(fs[j])
                == entry_hash(e);
        let es2 = es.drop_last();
        let fs2 = fs.remove(j);
        assert forall|i: int| 0 <= i < es2.len() implies hash_matched_in(#[trigger] es2[i], fs2) by {
            assert(es2[i] == es[i]);
            assert(hash_matched_in(es[i], fs));
            let j1 = choose|j1: int|
                0 <= j1 < fs.len() && key_of(#[trigger] fs[j1]) == key_of(es[i]) && entry_hash(
                    fs[j1],
                ) == entry_hash(es[i]);
            assert(key_of(es[i]) != key_of(es[n]));
            assert(j1 != j);
            if j1 < j {
                assert(fs2[j1] == fs[j1]);
            } else {
                assert(fs2[j1 - 1] == fs[j1]);
            }
        }
        assert forall|k: int| 0 <= k < fs2.len() implies has_key(es2, key_of(#[trigger] fs2[k])) by {
            let k1 = if k < j {
                k
            } else {
                k + 1
            };
            assert(fs2[k] == fs[k1]);
            assert(key_of(fs[k1]) != key_of(fs[j]));
            assert(has_key(es, key_of(fs[k1])));
            let i = choose|i: int| 0 <= i < es.len() && key_of(#[trigger] es[i]) == key_of(fs[k1]);
            assert(i != n);
            assert(es2[i] == es[i]);
        }
        assert forall|a: int, b: int|
            0 <= a < b < fs2.len() implies key_of(#[trigger] fs2[a]) != key_of(#[trigger] fs2[b]) by {
            let a1 = if a < j {
                a
            } else {
                a + 1
            };
            let b1 = if b < j {
                b
            } else {
                b + 1
            };
            assert(fs2[a] == fs[a1]);
            assert(fs2[b] == fs[b1]);
        }
        lemma_entries_hash_matched(es2, fs2);
        lemma_entries_hash_remove(fs, j);
        assert(es2 =~= es.drop_last());
    }
}

/// The hashes of the first `k` elements agree where the elements are equal
/// pairwise.
proof fn lemma_list_hash_agrees(a: Value, b: Value, k: int)
    requires
        a is List,
        b is List,
        value_wf(a),
        value_wf(b),
        value_eq(a, b),
        0 <= k <= a->List_0@.len(),
    ensures
        list_hash(a->List_0@, k) == list_hash(b->List_0@, k),
    decreases a, 0int, k,
{
    if k > 0 {
        let xs = a->List_0;
        let ys = b->List_0;
        assert(decreases_to!(a => xs));
        assert(decreases_to!(xs => xs@));
        assert(decreases_to!(xs@ => xs@[k - 1]));
        assert(value_eq(xs@[k - 1], ys@[k - 1]));
        law_equal_values_hash_alike(xs@[k - 1], ys@[k - 1]);
        lemma_list_hash_agrees(a, b, k - 1);
    }
}

/// Equal values hash alike: `value_eq(a, b)` implies that `value_hash` gives
/// `a` and `b` the same hash, structs with their entries in any order
/// included.
#[verifier::rlimit(80)]
pub proof fn law_equal_values_hash_alike(a: Value, b: Value)
    requires
        value_wf(a),
        value_wf(b),
        value_eq(a, b),
    ensures
        value_hash(a) == value_hash(b),
    decreases a, 1int, 0int,
{
    match a {
        Value::Decimal(x) => {
            let y = b->Decimal_0;
            lemma_decimal_hash_consistent(
                x.spec_mantissa(),
                x.spec_scale(),
                y.spec_mantissa(),
                y.spec_scale(),
            );
        },
        Value::List(xs) => {
            lemma_list_hash_agrees(a, b, xs@.len() as int);
        },
        Value::Struct(es) => {
            let fs = b->Struct_0;
            assert(entries_eq(es@, fs@));
            assert forall|i: int| 0 <= i < es@.len() implies hash_matched_in(
                #[trigger] es@[i],
                fs@,
            ) by {
                assert(covered_by(es@[i], fs@));
                let j = choose|j: int|
                    0 <= j < fs@.len() && es@[i].0@ == fs@[j].0@ && value_eq(
                        es@[i].1,
                        #[trigger] fs@[j].1,
                    );
                assert(decreases_to!(a => es));
                assert(decreases_to!(es => es@));
                assert(decreases_to!(es@ => es@[i]));
                assert(decreases_to!(es@[i] => es@[i].1));
                assert(value_wf(fs@[j].1));
                law_equal_values_hash_alike(es@[i].1, fs@[j].1);
                assert(key_of(fs@[j]) == key_of(es@[i]));
                assert(entry_hash(fs@[j]) == entry_hash(es@[i]));
            }
            assert forall|j: int| 0 <= j < fs@.len() implies has_key(
                es@,
                key_of(#[trigger] fs@[j]),
            ) by {
                assert(covers(es@, fs@[j]));
                let i = choose|i: int|
                    0 <= i < es@.len() && es@[i].0@ == fs@[j].0@ && value_eq(
                        #[trigger] es@[i].1,
                        fs@[j].1,
                    );
                assert(key_of(es@[i]) == key_of(fs@[j]));
            }
            lemma_entries_hash_matched(es@, fs@);
        },
        _ => {},
    }
}

impl Value {
    /// The canonical equality; see `value_eq`.
    pub fn equals(&self, other: &Value) -> (r: bool)
        ensures
            r == value_eq(*self, *other),
        decreases self, other, 2nat,
    {
        match self {
            Value::Bool(x) => match other {
                Value::Bool(y) => *x == *y,
                _ => false,
            },
            Value::Int(x) => match other {
                Value::Int(y) => *x == *y,
                _ => false,
            },
            Value::Float(x) => match other {
                Value::Float(y) => {
                    let (m1, e1, s1) = decompose(*x);
                    let (m2, e2, s2) = decompose(*y);
                    m1 == m2 && e1 == e2 && s1 == s2
                },
                _ => false,
            },
            Value::Decimal(x) => match other {
                Value::Decimal(y) => x.equals(y),
                _ => false,
            },
            Value::String(x) => match other {
                Value::String(y) => *x == *y,
                _ => false,
            },
            Value::Date(x) => match other {
                Value::Date(y) => x.equals(y),
                _ => false,
            },
            Value::Time(x) => match other {
                Value::Time(y) => x.equals(y),
                _ => false,
            },
            Value::DateTime(x) => match other {
                Value::DateTime(y) => x.equals(y),
                _ => false,
            },
            Value::Binary(x) => match other {
                Value::Binary(y) => x.equals(y),
                _ => false,
            },
            Value::List(xs) => match other {
                Value::List(ys) => Self::lists_equal(xs, ys, self, other),
                _ => false,
            },
            Value::Struct(es) => match other {
                Value::Struct(fs) => Self::entries_equal(&es.entries, &fs.entries, self, other),
                _ => false,
            },
        }
    }

    /// Whether `xs` and `ys` are equal element by element.
    fn lists_equal(xs: &Vec<Value>, ys: &Vec<Value>, a: &Value, b: &Value) -> (r: bool)
        requires
            *a == Value::List(*xs),
            *b == Value::List(*ys),
        ensures
            r == (xs@.len() == ys@.len() && forall|i: int|
                0 <= i < xs@.len() ==> value_eq(#[trigger] xs@[i], ys@[i])),
        decreases a, b, 0nat,
    {
        if xs.len() != ys.len() {
            return false;
        }
        let mut i: usize = 0;
        while i < xs.len()
            invariant
                *a == Value::List(*xs),
                xs@.len() == ys@.len(),
                i <= xs@.len(),
                forall|k: int| 0 <= k < i ==> value_eq(#[trigger] xs@[k], ys@[k]),
            decreases xs@.len() - i,
        {
            proof {
                let ghost vs = a->List_0;
                assert(decreases_to!(*a => vs));
                assert(decreases_to!(vs => vs@));
                assert(decreases_to!(vs@ => vs@[i as int]));
            }
            if !xs[i].equals(&ys[i]) {
                return false;
            }
            i = i + 1;
        }
        true
    }

    /// Whether every entry of `es` has an entry of `fs` with the same key and
    /// an equal value, and the other way round.
    fn entries_equal(es: &Vec<(Id, Value)>, fs: &Vec<(Id, Value)>, a: &Value, b: &Value) -> (r:
        bool)
        requires
            a is Struct && a->Struct_0@ == es@ && a->Struct_0.entries == *es,
            b is Struct && b->Struct_0@ == fs@ && b->Struct_0.entries == *fs,
        ensures
            r == entries_eq(es@, fs@),
        decreases a, b, 1nat,
    {
        let mut i: usize = 0;
        while i < es.len()
            invariant
                a is Struct && a->Struct_0@ == es@ && a->Struct_0.entries == *es,
                b is Struct && b->Struct_0@ == fs@ && b->Struct_0.entries == *fs,
                i <= es@.len(),
                forall|k: int| 0 <= k < i ==> covered_by(#[trigger] es@[k], fs@),
            decreases es@.len() - i,
        {
            if !Self::has_match(&es[i], fs, a, b, i) {
                return false;
            }
            i = i + 1;
        }
        let mut j: usize = 0;
        while j < fs.len()
            invariant
                a is Struct && a->Struct_0@ == es@ && a->Struct_0.entries == *es,
                b is Struct && b->Struct_0@ == fs@ && b->Struct_0.entries == *fs,
                j <= fs@.len(),
                forall|k: int| 0 <= k < es@.len() ==> covered_by(#[trigger] es@[k], fs@),
                forall|k: int| 0 <= k < j ==> covers(es@, #[trigger] fs@[k]),
            decreases fs@.len() - j,
        {
            if !Self::has_match_rev(es, &fs[j], a, b, j) {
                return false;
            }
            j = j + 1;
        }
        true
    }

    /// Whether `fs` has an entry with the key of `e` and an equal value.
    fn has_match(e: &(Id, Value), fs: &Vec<(Id, Value)>, a: &Value, b: &Value, at: usize) -> (r:
        bool)
        requires
            a is Struct,
            b is Struct && b->Struct_0@ == fs@ && b->Struct_0.entries == *fs,
            0 <= at < a->Struct_0@.len(),
            *e == a->Struct_0@[at as int],
        ensures
            r == covered_by(*e, fs@),
        decreases a, b, 0nat,
    {
        proof {
            let ghost f0 = a->Struct_0;
                    let ghost vs = f0.entries;
                    assert(decreases_to!(*a => f0));
                    assert(decreases_to!(f0 => vs));
            assert(decreases_to!(vs => vs@));
            assert(decreases_to!(vs@ => vs@[at as int]));
            assert(decreases_to!(vs@[at as int] => vs@[at as int].1));
        }
        let mut j: usize = 0;
        while j < fs.len()
            invariant
                decreases_to!(*a => e.1),
                j <= fs@.len(),
                forall|k: int|
                    0 <= k < j ==> !(e.0@ == fs@[k].0@ && value_eq(e.1, #[trigger] fs@[k].1)),
            decreases fs@.len() - j,
        {
            if e.0.equals(&fs[j].0) && e.1.equals(&fs[j].1) {
                return true;
            }
            j = j + 1;
        }
        false
    }

    /// Whether `es` has an entry with the key of `f` and an equal value (the
    /// value of `es` on the left).
    fn has_match_rev(es: &Vec<(Id, Value)>, f: &(Id, Value), a: &Value, b: &Value, at: usize) -> (r:
        bool)
        requires
            a is Struct && a->Struct_0@ == es@ && a->Struct_0.entries == *es,
            b is Struct,
            0 <= at < b->Struct_0@.len(),
            *f == b->Struct_0@[at as int],
        ensures
            r == covers(es@, *f),
        decreases a, b, 0nat,
    {
        let mut i: usize = 0;
        while i < es.len()
            invariant
                a is Struct && a->Struct_0@ == es@ && a->Struct_0.entries == *es,
                i <= es@.len(),
                forall|k: int|
                    0 <= k < i ==> !(es@[k].0@ == f.0@ && value_eq(#[trigger] es@[k].1, f.1)),
            decreases es@.len() - i,
        {
            proof {
                let ghost f0 = a->Struct_0;
                    let ghost vs = f0.entries;
                    assert(decreases_to!(*a => f0));
                    assert(decreases_to!(f0 => vs));
                assert(decreases_to!(vs => vs@));
                assert(decreases_to!(vs@ => vs@[i as int]));
                assert(decreases_to!(vs@[i as int] => vs@[i as int].1));
            }
            if es[i].0.equals(&f.0) && es[i].1.equals(&f.1) {
                return true;
            }
            i = i + 1;
        }
        false
    }
}

impl Value {
    /// A struct without entries.
    pub fn new_struct() -> (r: Value)
        ensures
            r is Struct && r->Struct_0@ == Seq::<(Id, Value)>::empty(),
    {
        Value::Struct(Fields { entries: Vec::new() })
    }

    /// A list without elements.
    pub fn new_list() -> (r: Value)
        ensures
            r is List && r->List_0@ == Seq::<Value>::empty(),
    {
        Value::List(Vec::new())
    }

    /// A list of `items`, in their order.
    pub fn list_from_iter(items: Vec<Value>) -> (r: Value)
        ensures
            r == Value::List(items),
    {
        Value::List(items)
    }

    /// A struct of `entries`; where a key repeats, the last entry given for
    /// it wins.
    pub fn struct_from_entries(entries: Vec<(Id, Value)>) -> (r: Value)
        ensures
            r is Struct,
            last_entries(r->Struct_0@, entries@),
    {
        let ghost orig = entries@;
        let mut rest = entries;
        let mut out: Vec<(Id, Value)> = Vec::new();
        while rest.len() > 0
            invariant
                rest@ == orig.subrange(0, rest@.len() as int),
                rest@.len() <= orig.len(),
                keys_unique(out@),
                forall|j: int|
                    0 <= j < out@.len() ==> exists|i: int|
                        rest@.len() <= i < orig.len() && #[trigger] out@[j] == orig[i]
                            && is_last_with_key(orig, i),
                forall|i: int|
                    rest@.len() <= i < orig.len() ==> has_key(out@, key_of(#[trigger] orig[i])),
            decreases rest@.len(),
        {
            let e = rest.pop().unwrap();
            let ghost n = rest@.len() as int;
            assert(e == orig[n]);
            let mut present = false;
            let mut k: usize = 0;
            while k < out.len()
                invariant
                    k <= out@.len(),
                    present ==> has_key(out@, key_of(e)),
                    !present ==> forall|m: int|
                        0 <= m < k ==> key_of(#[trigger] out@[m]) != key_of(e),
                decreases out@.len() - k,
            {
                if out[k].0.equals(&e.0) {
                    present = true;
                }
                k = k + 1;
            }
            if !present {
                assert(is_last_with_key(orig, n)) by {
                    assert forall|m: int| n < m < orig.len() implies key_of(#[trigger] orig[m])
                        != key_of(orig[n]) by {
                        assert(has_key(out@, key_of(orig[m])));
                    }
                }
                let ghost old_out = out@;
                out.push(e);
                assert forall|j: int|
                    0 <= j < out@.len() implies exists|i: int|
                        n <= i < orig.len() && #[trigger] out@[j] == orig[i]
                            && is_last_with_key(orig, i) by {
                    if j < old_out.len() {
                        assert(out@[j] == old_out[j]);
                    } else {
                        assert(out@[j] == orig[n]);
                    }
                }
                assert forall|i: int| n <= i < orig.len() implies has_key(
                    out@,
                    key_of(#[trigger] orig[i]),
                ) by {
                    if i == n {
                        assert(key_of(out@[old_out.len() as int]) == key_of(orig[i]));
                    } else {
                        let j = choose|j: int|
                            0 <= j < old_out.len() && key_of(#[trigger] old_out[j]) == key_of(
                                orig[i],
                            );
                        assert(key_of(out@[j]) == key_of(orig[i]));
                    }
                }
            } else {
                assert forall|i: int| n <= i < orig.len() implies has_key(
                    out@,
                    key_of(#[trigger] orig[i]),
                ) by {
                    if i == n {
                        assert(has_key(out@, key_of(e)));
                    }
                }
            }
        }
        assert(rest@.len() == 0);
        assert forall|j: int| 0 <= j < out@.len() implies survives(#[trigger] out@[j], orig) by {
            let i = choose|i: int|
                0 <= i < orig.len() && #[trigger] out@[j] == orig[i] && is_last_with_key(orig, i);
            assert(orig[i] == out@[j]);
        }
        assert(keys_unique(out@));
        assert(forall|i: int| 0 <= i < orig.len() ==> has_key(out@, key_of(#[trigger] orig[i])));
        assert(last_entries(out@, orig));
        Value::Struct(Fields { entries: out })
    }
}

impl Value {
    /// Every value that code holds is well formed: its structs have one
    /// entry per key and its decimals a scale of at most 28. This walks the
    /// tree to show it, so that the laws stated over `value_wf` apply.
    pub fn well_formed(&self) -> (r: bool)
        ensures
            r,
            value_wf(*self),
        decreases self,
    {
        match self {
            Value::Decimal(d) => {
                let _ = d.scale();
                true
            },
            Value::List(xs) => {
                let mut i: usize = 0;
                while i < xs.len()
                    invariant
                        *self == Value::List(*xs),
                        i <= xs@.len(),
                        forall|k: int| 0 <= k < i ==> value_wf(#[trigger] xs@[k]),
                    decreases xs@.len() - i,
                {
                    proof {
                        let ghost vs = self->List_0;
                        assert(decreases_to!(*self => vs));
                        assert(decreases_to!(vs => vs@));
                        assert(decreases_to!(vs@ => vs@[i as int]));
                    }
                    xs[i].well_formed();
                    i = i + 1;
                }
                true
            },
            Value::Struct(fields) => {
                proof {
                    use_type_invariant(fields);
                }
                let es = &fields.entries;
                let mut i: usize = 0;
                while i < es.len()
                    invariant
                        self is Struct && self->Struct_0@ == es@ && self->Struct_0.entries == *es,
                        keys_unique(es@),
                        i <= es@.len(),
                        forall|k: int| 0 <= k < i ==> value_wf(#[trigger] es@[k].1),
                    decreases es@.len() - i,
                {
                    proof {
                        let ghost f0 = self->Struct_0;
                        let ghost vs = f0.entries;
                        assert(decreases_to!(*self => f0));
                        assert(decreases_to!(f0 => vs));
                        assert(decreases_to!(vs => vs@));
                        assert(decreases_to!(vs@ => vs@[i as int]));
                        assert(decreases_to!(vs@[i as int] => vs@[i as int].1));
                    }
                    es[i].1.well_formed();
                    i = i + 1;
                }
                true
            },
            _ => true,
        }
    }

    /// A hash that equal values share; see `value_hash`.
    pub fn hash_code(&self) -> (r: u64)
        ensures
            r == value_hash(*self),
        decreases self,
    {
        match self {
            Value::Bool(b) => mix_exec(1, if *b { 1 } else { 0 }),
            Value::Int(i) => mix_exec(2, *i as u64),
            Value::Float(x) => {
                let (m, e, s) = decompose(*x);
                mix_exec(mix_exec(mix_exec(3, m), e as u64), s as u64)
            },
            Value::Decimal(d) => mix_exec(4, d.hash_code()),
            Value::String(s) => mix_exec(5, hash_text(s.as_str())),
            Value::Date(d) => mix_exec(6, d.hash_code()),
            Value::Time(t) => mix_exec(7, t.hash_code()),
            Value::DateTime(t) => mix_exec(8, t.hash_code()),
            Value::Binary(b) => mix_exec(9, b.hash_code()),
            Value::List(xs) => {
                let mut h: u64 = 0;
                let mut i: usize = 0;
                while i < xs.len()
                    invariant
                        *self == Value::List(*xs),
                        i <= xs@.len(),
                        h == list_hash(xs@, i as int),
                    decreases xs@.len() - i,
                {
                    proof {
                        let ghost vs = self->List_0;
                        assert(decreases_to!(*self => vs));
                        assert(decreases_to!(vs => vs@));
                        assert(decreases_to!(vs@ => vs@[i as int]));
                    }
                    h = mix_exec(h, xs[i].hash_code());
                    i = i + 1;
                }
                mix_exec(10, h)
            },
            Value::Struct(fields) => {
                let es = &fields.entries;
                let mut h: u64 = 0;
                let mut i: usize = 0;
                while i < es.len()
                    invariant
                        self is Struct && self->Struct_0@ == es@ && self->Struct_0.entries == *es,
                        i <= es@.len(),
                        h == entries_hash(es@.subrange(0, i as int)),
                    decreases es@.len() - i,
                {
                    proof {
                        let ghost f0 = self->Struct_0;
                        let ghost vs = f0.entries;
                        assert(decreases_to!(*self => f0));
                        assert(decreases_to!(f0 => vs));
                        assert(decreases_to!(vs => vs@));
                        assert(decreases_to!(vs@ => vs@[i as int]));
                        assert(decreases_to!(vs@[i as int] => vs@[i as int].1));
                    }
                    let kh = es[i].0.hash_code();
                    let vh = es[i].1.hash_code();
                    let eh = mix_exec(kh, vh);
                    assert(eh == entry_hash(es@[i as int]));
                    let sum: u128 = h as u128 + eh as u128;
                    let next: u64 = (sum % 0x1_0000_0000_0000_0000u128) as u64;
                    assert(es@.subrange(0, i + 1).drop_last() =~= es@.subrange(0, i as int));
                    assert(next == entries_hash(es@.subrange(0, i + 1)));
                    h = next;
                    i = i + 1;
                }
                assert(es@.subrange(0, i as int) =~= es@);
                mix_exec(11, h)
            },
        }
    }
}

/// Hashes through `hash_code`, so values that are equal hash alike.
impl std::hash::Hash for Value {
    fn hash<H: std::hash::Hasher>(&self, state: &mut H) {
        feed_hasher(state, self.hash_code());
    }
}

impl PartialEq for Value {
    fn eq(&self, other: &Value) -> (r: bool) {
        self.equals(other)
    }
}

impl Eq for Value {}

impl vstd::std_specs::cmp::PartialEqSpecImpl for Value {
    open spec fn obeys_eq_spec() -> bool {
        true
    }

    open spec fn eq_spec(&self, other: &Value) -> bool {
        value_eq(*self, *other)
    }
}

impl Value {
    /// A `String` value with the characters of `value`.
    pub fn from_str_slice(value: &str) -> (r: Value)
        ensures
            r is String && r->String_0@ == value@,
    {
        Value::String(value.to_string())
    }

    /// A `Float` value from the bit pattern of a binary64 number.
    pub fn from_f64_bits(bits: u64) -> (r: Value)
        ensures
            r == Value::Float(bits),
    {
        Value::Float(bits)
    }
}

/// Lossless: every value of the type is an `Int`.
impl From<i8> for Value {
    fn from(value: i8) -> (r: Value) {
        Value::Int(value as i64)
    }
}

impl vstd::std_specs::convert::FromSpecImpl<i8> for Value {
    open spec fn obeys_from_spec() -> bool {
        true
    }

    open spec fn from_spec(value: i8) -> Value {
        Value::Int(value as i64)
    }
}

impl From<i16> for Value {
    fn from(value: i16) -> (r: Value) {
        Value::Int(value as i64)
    }
}

impl vstd::std_specs::convert::FromSpecImpl<i16> for Value {
    open spec fn obeys_from_spec() -> bool {
        true
    }

    open spec fn from_spec(value: i16) -> Value {
        Value::Int(value as i64)
    }
}

impl From<i32> for Value {
    fn from(value: i32) -> (r: Value) {
        Value::Int(value as i64)
    }
}

impl vstd::std_specs::convert::FromSpecImpl<i32> for Value {
    open spec fn obeys_from_spec() -> bool {
        true
    }

    open spec fn from_spec(value: i32) -> Value {
        Value::Int(value as i64)
    }
}

impl From<i64> for Value {
    fn from(value: i64) -> (r: Value) {
        Value::Int(value)
    }
}

impl vstd::std_specs::convert::FromSpecImpl<i64> for Value {
    open spec fn obeys_from_spec() -> bool {
        true
    }

    open spec fn from_spec(value: i64) -> Value {
        Value::Int(value)
    }
}

impl From<u8> for Value {
    fn from(value: u8) -> (r: Value) {
        Value::Int(value as i64)
    }
}

impl vstd::std_specs::convert::FromSpecImpl<u8> for Value {
    open spec fn obeys_from_spec() -> bool {
        true
    }

    open spec fn from_spec(value: u8) -> Value {
        Value::Int(value as i64)
    }
}

impl From<u16> for Value {
    fn from(value: u16) -> (r: Value) {
        Value::Int(value as i64)
    }
}

impl vstd::std_specs::convert::FromSpecImpl<u16> for Value {
    open spec fn obeys_from_spec() -> bool {
        true
    }

    open spec fn from_spec(value: u16) -> Value {
        Value::Int(value as i64)
    }
}

impl From<u32> for Value {
    fn from(value: u32) -> (r: Value) {
        Value::Int(value as i64)
    }
}

impl vstd::std_specs::convert::FromSpecImpl<u32> for Value {
    open spec fn obeys_from_spec() -> bool {
        true
    }

    open spec fn from_spec(value: u32) -> Value {
        Value::Int(value as i64)
    }
}

/// Narrowed to 64 bits by a cast: out-of-range magnitudes wrap.
impl From<u64> for Value {
    fn from(value: u64) -> (r: Value) {
        Value::Int(value as i64)
    }
}

impl vstd::std_specs::convert::FromSpecImpl<u64> for Value {
    open spec fn obeys_from_spec() -> bool {
        true
    }

    open spec fn from_spec(value: u64) -> Value {
        Value::Int(value as i64)
    }
}

impl From<i128> for Value {
    fn from(value: i128) -> (r: Value) {
        Value::Int(value as i64)
    }
}

impl vstd::std_specs::convert::FromSpecImpl<i128> for Value {
    open spec fn obeys_from_spec() -> bool {
        true
    }

    open spec fn from_spec(value: i128) -> Value {
        Value::Int(value as i64)
    }
}

impl From<u128> for Value {
    fn from(value: u128) -> (r: Value) {
        Value::Int(value as i64)
    }
}

impl vstd::std_specs::convert::FromSpecImpl<u128> for Value {
    open spec fn obeys_from_spec() -> bool {
        true
    }

    open spec fn from_spec(value: u128) -> Value {
        Value::Int(value as i64)
    }
}

impl From<bool> for Value {
    fn from(value: bool) -> (r: Value) {
        Value::Bool(value)
    }
}

impl vstd::std_specs::convert::FromSpecImpl<bool> for Value {
    open spec fn obeys_from_spec() -> bool {
        true
    }

    open spec fn from_spec(value: bool) -> Value {
        Value::Bool(value)
    }
}

impl From<Decimal> for Value {
    fn from(value: Decimal) -> (r: Value) {
        Value::Decimal(value)
    }
}

impl vstd::std_specs::convert::FromSpecImpl<Decimal> for Value {
    open spec fn obeys_from_spec() -> bool {
        true
    }

    open spec fn from_spec(value: Decimal) -> Value {
        Value::Decimal(value)
    }
}

impl From<String> for Value {
    fn from(value: String) -> (r: Value) {
        Value::String(value)
    }
}

impl vstd::std_specs::convert::FromSpecImpl<String> for Value {
    open spec fn obeys_from_spec() -> bool {
        true
    }

    open spec fn from_spec(value: String) -> Value {
        Value::String(value)
    }
}

impl From<Date> for Value {
    fn from(value: Date) -> (r: Value) {
        Value::Date(value)
    }
}

impl vstd::std_specs::convert::FromSpecImpl<Date> for Value {
    open spec fn obeys_from_spec() -> bool {
        true
    }

    open spec fn from_spec(value: Date) -> Value {
        Value::Date(value)
    }
}

impl From<Time> for Value {
    fn from(value: Time) -> (r: Value) {
        Value::Time(value)
    }
}

impl vstd::std_specs::convert::FromSpecImpl<Time> for Value {
    open spec fn obeys_from_spec() -> bool {
        true
    }

    open spec fn from_spec(value: Time) -> Value {
        Value::Time(value)
    }
}

/// The instant is taken as it is, already in UTC.
impl From<DateTime> for Value {
    fn from(value: DateTime) -> (r: Value) {
        Value::DateTime(value)
    }
}

impl vstd::std_specs::convert::FromSpecImpl<DateTime> for Value {
    open spec fn obeys_from_spec() -> bool {
        true
    }

    open spec fn from_spec(value: DateTime) -> Value {
        Value::DateTime(value)
    }
}

impl From<Blob> for Value {
    fn from(value: Blob) -> (r: Value) {
        Value::Binary(value)
    }
}

impl vstd::std_specs::convert::FromSpecImpl<Blob> for Value {
    open spec fn obeys_from_spec() -> bool {
        true
    }

    open spec fn from_spec(value: Blob) -> Value {
        Value::Binary(value)
    }
}

/// A `String` value with the characters of `value`, as `from_str_slice`
/// states.
impl<'a> From<&'a str> for Value {
    fn from(value: &'a str) -> (r: Value) {
        Value::from_str_slice(value)
    }
}

impl<'a> vstd::std_specs::convert::FromSpecImpl<&'a str> for Value {
    open spec fn obeys_from_spec() -> bool {
        false
    }

    open spec fn from_spec(value: &'a str) -> Value {
        Value::String(choose|s: String| s@ == value@)
    }
}

} // verus!
