//! Records that carry an identifier, and the facts about identifier
//! uniqueness that the store keeps.

use crate::text::{lemma_serial_id_injective, serial_id, str_equal};
use crate::types::{
    Assignment, AttendanceRecord, Communication, Course, Enrollment, Grade, Guardian, Section, Student,
    SupportCase,
};
use vstd::prelude::*;

verus! {

/// A record identified by a string key.
pub trait Keyed {
    spec fn key(&self) -> Seq<char>;

    fn key_str(&self) -> (r: &str)
        ensures
            r@ == self.key(),
    ;
}

impl Keyed for Student {
    open spec fn key(&self) -> Seq<char> {
        self.id@
    }

    fn key_str(&self) -> (r: &str) {
        self.id.as_str()
    }
}

impl Keyed for Course {
    open spec fn key(&self) -> Seq<char> {
        self.id@
    }

    fn key_str(&self) -> (r: &str) {
        self.id.as_str()
    }
}

impl Keyed for Section {
    open spec fn key(&self) -> Seq<char> {
        self.id@
    }

    fn key_str(&self) -> (r: &str) {
        self.id.as_str()
    }
}

impl Keyed for Assignment {
    open spec fn key(&self) -> Seq<char> {
        self.id@
    }

    fn key_str(&self) -> (r: &str) {
        self.id.as_str()
    }
}

impl Keyed for SupportCase {
    open spec fn key(&self) -> Seq<char> {
        self.id@
    }

    fn key_str(&self) -> (r: &str) {
        self.id.as_str()
    }
}

impl Keyed for Guardian {
    open spec fn key(&self) -> Seq<char> {
        self.id@
    }

    fn key_str(&self) -> (r: &str) {
        self.id.as_str()
    }
}

impl Keyed for Enrollment {
    open spec fn key(&self) -> Seq<char> {
        self.id@
    }

    fn key_str(&self) -> (r: &str) {
        self.id.as_str()
    }
}

impl Keyed for Grade {
    open spec fn key(&self) -> Seq<char> {
        self.id@
    }

    fn key_str(&self) -> (r: &str) {
        self.id.as_str()
    }
}

impl Keyed for AttendanceRecord {
    open spec fn key(&self) -> Seq<char> {
        self.id@
    }

    fn key_str(&self) -> (r: &str) {
        self.id.as_str()
    }
}

impl Keyed for Communication {
    open spec fn key(&self) -> Seq<char> {
        self.id@
    }

    fn key_str(&self) -> (r: &str) {
        self.id.as_str()
    }
}

/// Some record in `s` has key `k`.
pub open spec fn has_key<T: Keyed>(s: Seq<T>, k: Seq<char>) -> bool {
    exists|i: int| 0 <= i < s.len() && (#[trigger] s[i]).key() == k
}

/// No two records in `s` share a key.
pub open spec fn distinct_keys<T: Keyed>(s: Seq<T>) -> bool {
    forall|i: int, j: int| 0 <= i < s.len() && 0 <= j < s.len() && i != j ==> (#[trigger] s[i]).key() != (#[trigger] s[j]).key()
}

/// Every key in `s` is the serial identifier `prefix-k` for some `k` no
/// larger than `serial`.
pub open spec fn keys_issued<T: Keyed>(s: Seq<T>, prefix: Seq<char>, serial: nat) -> bool {
    forall|i: int| 0 <= i < s.len() ==> issued_key((#[trigger] s[i]).key(), prefix, serial)
}

/// `key` is `prefix-k` for some serial number `k` no larger than `serial`.
pub open spec fn issued_key(key: Seq<char>, prefix: Seq<char>, serial: nat) -> bool {
    exists|k: nat| k <= serial && key == #[trigger] serial_id(prefix, k)
}

/// Position of the record with key `k` in `s` (meaningful when `has_key(s, k)`).
pub open spec fn key_index<T: Keyed>(s: Seq<T>, k: Seq<char>) -> int {
    choose|i: int| 0 <= i < s.len() && (#[trigger] s[i]).key() == k
}

/// The position of the first record in `v` with key `k`.
pub fn find_key<T: Keyed>(v: &Vec<T>, k: &str) -> (r: Option<usize>)
    ensures
        match r {
            Some(i) => i < v@.len() && v@[i as int].key() == k@ && forall|j: int|
                0 <= j < i ==> (#[trigger] v@[j]).key() != k@,
            None => !has_key(v@, k@),
        },
{
    let mut i: usize = 0;
    while i < v.len()
        invariant
            i <= v@.len(),
            forall|j: int| 0 <= j < i ==> (#[trigger] v@[j]).key() != k@,
        decreases v.len() - i,
    {
        if str_equal(v[i].key_str(), k) {
            return Some(i);
        }
        i = i + 1;
    }
    None
}

/// With distinct keys, the record with key `k` sits at exactly one position.
pub proof fn lemma_key_index<T: Keyed>(s: Seq<T>, k: Seq<char>, i: int)
    requires
        distinct_keys(s),
        0 <= i < s.len(),
        s[i].key() == k,
    ensures
        has_key(s, k),
        key_index(s, k) == i,
{
    let j = key_index(s, k);
    assert(0 <= j < s.len() && s[j].key() == k);
}

/// A fresh serial number gives a key that no record holds yet.
pub proof fn lemma_fresh_serial<T: Keyed>(s: Seq<T>, prefix: Seq<char>, serial: nat)
    requires
        keys_issued(s, prefix, serial),
    ensures
        !has_key(s, serial_id(prefix, serial + 1)),
{
    if has_key(s, serial_id(prefix, serial + 1)) {
        let i = choose|i: int| 0 <= i < s.len() && (#[trigger] s[i]).key() == serial_id(prefix, serial + 1);
        assert(issued_key(s[i].key(), prefix, serial));
        let k = choose|k: nat| k <= serial && s[i].key() == #[trigger] serial_id(prefix, k);
        lemma_serial_id_injective(prefix, k, serial + 1);
    }
}

/// Appending a record with a fresh serial key keeps keys distinct and issued.
pub proof fn lemma_push_fresh<T: Keyed>(s: Seq<T>, prefix: Seq<char>, serial: nat, x: T)
    requires
        distinct_keys(s),
        keys_issued(s, prefix, serial),
        x.key() == serial_id(prefix, serial + 1),
    ensures
        distinct_keys(s.push(x)),
        keys_issued(s.push(x), prefix, serial + 1),
{
    lemma_fresh_serial(s, prefix, serial);
    let t = s.push(x);
    assert forall|i: int, j: int| 0 <= i < t.len() && 0 <= j < t.len() && i != j implies (#[trigger] t[i]).key() != (#[trigger] t[j]).key() by {
        if i < s.len() && j < s.len() {
            assert(t[i] == s[i] && t[j] == s[j]);
        } else if i < s.len() {
            assert(t[i] == s[i]);
        } else {
            assert(t[j] == s[j]);
        }
    }
    assert forall|i: int| 0 <= i < t.len() implies issued_key((#[trigger] t[i]).key(), prefix, serial + 1) by {
        if i < s.len() {
            assert(t[i] == s[i]);
            assert(issued_key(s[i].key(), prefix, serial));
            let k = choose|k: nat| k <= serial && s[i].key() == #[trigger] serial_id(prefix, k);
            assert(k <= serial + 1 && t[i].key() == serial_id(prefix, k));
        } else {
            assert(t[i] == x);
            assert(t[i].key() == serial_id(prefix, serial + 1));
        }
    }
}

/// Keeping only some records keeps keys distinct and issued.
pub proof fn lemma_filter_keys<T: Keyed>(s: Seq<T>, p: spec_fn(T) -> bool, prefix: Seq<char>, serial: nat)
    requires
        distinct_keys(s),
        keys_issued(s, prefix, serial),
    ensures
        distinct_keys(s.filter(p)),
        keys_issued(s.filter(p), prefix, serial),
        forall|k: int| 0 <= k < s.filter(p).len() ==> s.contains(#[trigger] s.filter(p)[k]),
    decreases s.len(),
{
    reveal_with_fuel(Seq::filter, 1);
    if s.len() > 0 {
        let d = s.drop_last();
        assert forall|a: int, b: int| 0 <= a < d.len() && 0 <= b < d.len() && a != b implies (#[trigger] d[a]).key() != (#[trigger] d[b]).key() by {
            assert(d[a] == s[a] && d[b] == s[b]);
        }
        assert forall|a: int| 0 <= a < d.len() implies issued_key((#[trigger] d[a]).key(), prefix, serial) by {
            assert(d[a] == s[a]);
        }
        lemma_filter_keys(d, p, prefix, serial);
        let f = d.filter(p);
        assert forall|k: int| 0 <= k < f.len() implies s.contains(#[trigger] f[k]) by {
            let m = choose|m: int| 0 <= m < d.len() && d[m] == f[k];
            assert(s[m] == f[k]);
        }
        if p(s.last()) {
            let t = f.push(s.last());
            assert(s.filter(p) == t);
            assert forall|k: int| 0 <= k < f.len() implies (#[trigger] f[k]).key() != s.last().key() by {
                let m = choose|m: int| 0 <= m < d.len() && d[m] == f[k];
                assert(s[m] == f[k]);
                assert(m != s.len() - 1);
            }
            assert forall|a: int, b: int| 0 <= a < t.len() && 0 <= b < t.len() && a != b implies (#[trigger] t[a]).key() != (#[trigger] t[b]).key() by {
                if a < f.len() && b < f.len() {
                    assert(t[a] == f[a] && t[b] == f[b]);
                } else if a < f.len() {
                    assert(t[a] == f[a]);
                } else {
                    assert(t[b] == f[b]);
                }
            }
            assert forall|k: int| 0 <= k < t.len() implies issued_key((#[trigger] t[k]).key(), prefix, serial) by {
                if k < f.len() {
                    assert(t[k] == f[k]);
                } else {
                    assert(t[k] == s[s.len() - 1]);
                }
            }
            assert forall|k: int| 0 <= k < t.len() implies s.contains(#[trigger] t[k]) by {
                if k < f.len() {
                    assert(t[k] == f[k]);
                } else {
                    assert(t[k] == s[s.len() - 1]);
                }
            }
        } else {
            assert(s.filter(p) == f);
        }
    }
}

/// A larger serial counter keeps the issued-keys fact.
pub proof fn lemma_issued_mono<T: Keyed>(s: Seq<T>, prefix: Seq<char>, a: nat, b: nat)
    requires
        keys_issued(s, prefix, a),
        a <= b,
    ensures
        keys_issued(s, prefix, b),
{
    assert forall|i: int| 0 <= i < s.len() implies issued_key((#[trigger] s[i]).key(), prefix, b) by {
        assert(issued_key(s[i].key(), prefix, a));
        let k = choose|k: nat| k <= a && s[i].key() == #[trigger] serial_id(prefix, k);
        assert(k <= b && s[i].key() == serial_id(prefix, k));
    }
}

/// No record of `a` has the key of a record of `b`.
pub open spec fn disjoint_keys<A: Keyed, B: Keyed>(a: Seq<A>, b: Seq<B>) -> bool {
    forall|i: int, j: int| 0 <= i < a.len() && 0 <= j < b.len() ==> (#[trigger] a[i]).key() != (#[trigger] b[j]).key()
}

/// A record given the next serial key under `prefix` shares its key with no
/// record of `b` whose keys were issued under that prefix before.
pub proof fn lemma_disjoint_push_fresh<A: Keyed, B: Keyed>(a: Seq<A>, b: Seq<B>, prefix: Seq<char>, serial: nat, x: A)
    requires
        keys_issued(b, prefix, serial),
        x.key() == serial_id(prefix, serial + 1),
    ensures
        disjoint_keys(a, b) ==> disjoint_keys(a.push(x), b),
        disjoint_keys(b, a) ==> disjoint_keys(b, a.push(x)),
{
    lemma_fresh_serial(b, prefix, serial);
    let t = a.push(x);
    if disjoint_keys(a, b) {
        assert forall|i: int, j: int| 0 <= i < t.len() && 0 <= j < b.len() implies (#[trigger] t[i]).key() != (#[trigger] b[j]).key() by {
            if i < a.len() {
                assert(t[i] == a[i]);
            }
        }
    }
    if disjoint_keys(b, a) {
        assert forall|j: int, i: int| 0 <= j < b.len() && 0 <= i < t.len() implies (#[trigger] b[j]).key() != (#[trigger] t[i]).key() by {
            if i < a.len() {
                assert(t[i] == a[i]);
            }
        }
    }
}

/// Records drawn from `a` keep `a`'s disjointness from `b`.
pub proof fn lemma_disjoint_sub<A: Keyed, B: Keyed>(a: Seq<A>, c: Seq<A>, b: Seq<B>)
    requires
        disjoint_keys(a, b),
        forall|k: int| 0 <= k < c.len() ==> a.contains(#[trigger] c[k]),
    ensures
        disjoint_keys(c, b),
{
    assert forall|i: int, j: int| 0 <= i < c.len() && 0 <= j < b.len() implies (#[trigger] c[i]).key() != (#[trigger] b[j]).key() by {
        assert(a.contains(c[i]));
        let m = choose|m: int| 0 <= m < a.len() && a[m] == c[i];
        assert(a[m].key() != b[j].key());
    }
}

/// Replacing a record by one with the same key keeps the keys distinct.
pub proof fn lemma_update_keeps_distinct<T: Keyed>(s: Seq<T>, i: int, x: T)
    requires
        0 <= i < s.len(),
        x.key() == s[i].key(),
    ensures
        distinct_keys(s) ==> distinct_keys(s.update(i, x)),
{
    let t = s.update(i, x);
    assert forall|a: int| 0 <= a < t.len() implies (#[trigger] t[a]).key() == s[a].key() by {}
}

/// Replacing a record by one with the same key keeps both facts.
pub proof fn lemma_update_same_key<T: Keyed>(s: Seq<T>, prefix: Seq<char>, serial: nat, i: int, x: T)
    requires
        0 <= i < s.len(),
        x.key() == s[i].key(),
    ensures
        distinct_keys(s) ==> distinct_keys(s.update(i, x)),
        keys_issued(s, prefix, serial) ==> keys_issued(s.update(i, x), prefix, serial),
{
    let t = s.update(i, x);
    lemma_update_keeps_distinct(s, i, x);
    assert forall|a: int| 0 <= a < t.len() implies (#[trigger] t[a]).key() == s[a].key() by {}
    if keys_issued(s, prefix, serial) {
        assert forall|a: int| 0 <= a < t.len() implies issued_key((#[trigger] t[a]).key(), prefix, serial) by {
            assert(issued_key(s[a].key(), prefix, serial));
            assert(t[a].key() == s[a].key());
        }
    }
}

} // verus!

verus! {

/// A record stamped with an instant.
pub trait Timed {
    spec fn time(&self) -> int;

    fn time_val(&self) -> (r: i64)
        ensures
            r == self.time(),
    ;
}

impl Timed for SupportCase {
    open spec fn time(&self) -> int {
        self.created_at as int
    }

    fn time_val(&self) -> (r: i64) {
        self.created_at
    }
}

impl Timed for Communication {
    open spec fn time(&self) -> int {
        self.sent_at as int
    }

    fn time_val(&self) -> (r: i64) {
        self.sent_at
    }
}

/// Newest first: instants never increase along `s`.
pub open spec fn newest_first<T: Timed>(s: Seq<T>) -> bool {
    forall|a: int, b: int| 0 <= a < b < s.len() ==> (#[trigger] s[a]).time() >= (#[trigger] s[b]).time()
}

proof fn lemma_insert_membership<T>(before: Seq<T>, x: T, j: int, src: Seq<T>, i: int)
    requires
        0 <= j <= before.len(),
        0 <= i < src.len(),
        src[i] == x,
        forall|k: int| 0 <= k < before.len() ==> src.take(i).contains(#[trigger] before[k]),
        forall|k: int| 0 <= k < i ==> before.contains(#[trigger] src[k]),
    ensures
        forall|k: int| 0 <= k < before.insert(j, x).len() ==> src.take(i + 1).contains(#[trigger] before.insert(j, x)[k]),
        forall|k: int| 0 <= k < i + 1 ==> before.insert(j, x).contains(#[trigger] src[k]),
{
    let t = before.insert(j, x);
    assert forall|k: int| 0 <= k < t.len() implies src.take(i + 1).contains(#[trigger] t[k]) by {
        if k == j {
            assert(src.take(i + 1)[i] == x);
        } else {
            let kk = if k < j { k } else { k - 1 };
            assert(t[k] == before[kk]);
            let m = choose|m: int| 0 <= m < i && src.take(i)[m] == before[kk];
            assert(src.take(i + 1)[m] == before[kk]);
        }
    }
    assert forall|k: int| 0 <= k < i + 1 implies t.contains(#[trigger] src[k]) by {
        if k == i {
            assert(t[j] == x);
        } else {
            let m = choose|m: int| 0 <= m < before.len() && before[m] == src[k];
            let mm = if m < j { m } else { m + 1 };
            assert(t[mm] == before[m]);
        }
    }
}

/// Inserting a record whose key is new keeps keys distinct.
pub proof fn lemma_insert_distinct<T: Keyed>(before: Seq<T>, x: T, j: int)
    requires
        0 <= j <= before.len(),
        distinct_keys(before),
        forall|k: int| 0 <= k < before.len() ==> (#[trigger] before[k]).key() != x.key(),
    ensures
        distinct_keys(before.insert(j, x)),
{
    let t = before.insert(j, x);
    assert forall|a: int, b: int| 0 <= a < t.len() && 0 <= b < t.len() && a != b implies (#[trigger] t[a]).key() != (#[trigger] t[b]).key() by {
        let aa = if a < j { a } else { a - 1 };
        let bb = if b < j { b } else { b - 1 };
        if a != j && b != j {
            assert(t[a] == before[aa] && t[b] == before[bb]);
        } else if a == j {
            assert(t[b] == before[bb]);
        } else {
            assert(t[a] == before[aa]);
        }
    }
}

proof fn lemma_insert_newest_first<T: Timed>(before: Seq<T>, x: T, j: int)
    requires
        0 <= j <= before.len(),
        newest_first(before),
        forall|k: int| 0 <= k < j ==> (#[trigger] before[k]).time() >= x.time(),
        forall|k: int| j <= k < before.len() ==> (#[trigger] before[k]).time() < x.time(),
    ensures
        newest_first(before.insert(j, x)),
{
    let t = before.insert(j, x);
    assert forall|a: int, b: int| 0 <= a < b < t.len() implies (#[trigger] t[a]).time() >= (#[trigger] t[b]).time() by {
        let aa = if a < j { a } else { a - 1 };
        let bb = if b < j { b } else { b - 1 };
        if a != j && b != j {
            assert(t[a] == before[aa] && t[b] == before[bb]);
        } else if a == j {
            assert(t[b] == before[bb]);
        } else {
            assert(t[a] == before[aa]);
        }
    }
}

/// Records of `r` with equal instants come in the order that records with
/// their keys have in `src`.
pub open spec fn ties_keep_order<T: Keyed + Timed>(src: Seq<T>, r: Seq<T>) -> bool {
    forall|a: int, b: int|
        0 <= a < b < r.len() && (#[trigger] r[a]).time() == (#[trigger] r[b]).time() ==> exists|p: int, q: int|
            #![trigger src[p], src[q]]
            0 <= p < q < src.len() && src[p].key() == r[a].key() && src[q].key() == r[b].key()
}

proof fn lemma_insert_ties<T: Keyed + Timed>(before: Seq<T>, x: T, j: int, src: Seq<T>, i: int)
    requires
        0 <= j <= before.len(),
        0 <= i < src.len(),
        src[i] == x,
        ties_keep_order(src, before),
        forall|k: int| 0 <= k < before.len() ==> src.take(i).contains(#[trigger] before[k]),
        forall|k: int| j <= k < before.len() ==> (#[trigger] before[k]).time() < x.time(),
    ensures
        ties_keep_order(src, before.insert(j, x)),
{
    let t = before.insert(j, x);
    assert forall|a: int, b: int| 0 <= a < b < t.len() && (#[trigger] t[a]).time() == (#[trigger] t[b]).time() implies exists|p: int, q: int|
        #![trigger src[p], src[q]]
        0 <= p < q < src.len() && src[p].key() == t[a].key() && src[q].key() == t[b].key() by {
        if a != j && b != j {
            let aa = if a < j { a } else { a - 1 };
            let bb = if b < j { b } else { b - 1 };
            assert(t[a] == before[aa] && t[b] == before[bb]);
            assert(before[aa].time() == before[bb].time());
        } else if a == j {
            assert(t[b] == before[b - 1]);
            assert(before[b - 1].time() < x.time());
        } else {
            assert(t[a] == before[a]);
            assert(src.take(i).contains(before[a]));
            let m = choose|m: int| 0 <= m < i && src.take(i)[m] == before[a];
            assert(src[m] == before[a]);
            assert(src[m].key() == t[a].key() && src[i].key() == t[b].key());
        }
    }
}

/// The records of `v` reordered newest first (records with equal instants
/// keep their order): the same records, each once.
pub fn sort_newest_first<T: Keyed + Timed>(v: Vec<T>) -> (r: Vec<T>)
    ensures
        r@.len() == v@.len(),
        forall|k: int| 0 <= k < r@.len() ==> v@.contains(#[trigger] r@[k]),
        forall|k: int| 0 <= k < v@.len() ==> r@.contains(#[trigger] v@[k]),
        distinct_keys(v@) ==> distinct_keys(r@),
        newest_first(r@),
        ties_keep_order(v@, r@),
{
    let ghost v0 = v@;
    let mut rest = v;
    let mut r: Vec<T> = Vec::new();
    let n = rest.len();
    let mut i: usize = 0;
    while rest.len() > 0
        invariant
            v0.len() == n,
            i <= n,
            rest@ == v0.skip(i as int),
            r@.len() == i,
            forall|k: int| 0 <= k < r@.len() ==> v0.take(i as int).contains(#[trigger] r@[k]),
            forall|k: int| 0 <= k < i ==> r@.contains(#[trigger] v0[k]),
            distinct_keys(v0) ==> distinct_keys(r@),
            newest_first(r@),
            ties_keep_order(v0, r@),
        decreases rest.len(),
    {
        assert(rest@.len() == n - i);
        let x = rest.remove(0);
        assert(x == v0[i as int]);
        assert(rest@ =~= v0.skip(i + 1));
        let t = x.time_val();
        let mut j: usize = 0;
        while j < r.len() && r[j].time_val() >= t
            invariant
                j <= r@.len(),
                t == x.time(),
                forall|k: int| 0 <= k < j ==> (#[trigger] r@[k]).time() >= x.time(),
            decreases r.len() - j,
        {
            j = j + 1;
        }
        let ghost before = r@;
        proof {
            assert forall|k: int| j <= k < before.len() implies (#[trigger] before[k]).time() < x.time() by {
                assert(before[j as int].time() < x.time());
                if k > j {
                    assert(before[j as int].time() >= before[k].time());
                }
            }
            if distinct_keys(v0) {
                assert forall|k: int| 0 <= k < before.len() implies (#[trigger] before[k]).key() != x.key() by {
                    let m = choose|m: int| 0 <= m < i && v0.take(i as int)[m] == before[k];
                    assert(v0[m] == before[k]);
                }
            }
        }
        r.insert(j, x);
        proof {
            lemma_insert_membership(before, x, j as int, v0, i as int);
            if distinct_keys(v0) {
                lemma_insert_distinct(before, x, j as int);
            }
            lemma_insert_newest_first(before, x, j as int);
            lemma_insert_ties(before, x, j as int, v0, i as int);
        }
        i = i + 1;
    }
    assert(v0.take(i as int) =~= v0);
    r
}

} // verus!
