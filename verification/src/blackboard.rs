//! The typed fact store: an unordered mapping from fact names to tagged
//! values, modelled as a `Map<Seq<char>, ValueModel>`. Equality is full
//! structural equality over the map, and the hash is an order-independent
//! combination of per-entry hashes, so it is consistent with equality.

use vstd::prelude::*;

verus! {

/// The mathematical value of a fact: strings are compared by their
/// character sequences, not by object identity.
pub enum ValueModel {
    Bool(bool),
    Number(u32),
    Str(Seq<char>),
}

/// A tagged fact value stored in a blackboard: a boolean, an unsigned
/// number, or a string.
#[derive(Debug)]
pub enum Value {
    Bool(bool),
    Number(u32),
    Str(String),
}

impl View for Value {
    type V = ValueModel;

    open spec fn view(&self) -> ValueModel {
        match self {
            Value::Bool(b) => ValueModel::Bool(*b),
            Value::Number(n) => ValueModel::Number(*n),
            Value::Str(s) => ValueModel::Str(s@),
        }
    }
}

impl Clone for Value {
    fn clone(&self) -> (r: Value)
        ensures
            r == *self,
    {
        match self {
            Value::Bool(b) => Value::Bool(*b),
            Value::Number(n) => Value::Number(*n),
            Value::Str(s) => Value::Str(s.clone()),
        }
    }
}

impl Value {
    /// Structural equality over the mathematical value.
    pub fn equals(&self, other: &Value) -> (r: bool)
        ensures
            r == (self@ == other@),
    {
        match self {
            Value::Bool(a) => match other {
                Value::Bool(b) => *a == *b,
                _ => false,
            },
            Value::Number(a) => match other {
                Value::Number(b) => *a == *b,
                _ => false,
            },
            Value::Str(a) => match other {
                Value::Str(b) => <String as PartialEq>::eq(a, b),
                _ => false,
            },
        }
    }
}

/// The boolean fact stored under `k`, if any; a missing or differently
/// tagged entry reads as absent.
pub open spec fn bool_fact(m: Map<Seq<char>, ValueModel>, k: Seq<char>) -> Option<bool> {
    if m.contains_key(k) {
        match m[k] {
            ValueModel::Bool(b) => Some(b),
            _ => None,
        }
    } else {
        None
    }
}

/// The numeric fact stored under `k`, if any.
pub open spec fn number_fact(m: Map<Seq<char>, ValueModel>, k: Seq<char>) -> Option<u32> {
    if m.contains_key(k) {
        match m[k] {
            ValueModel::Number(n) => Some(n),
            _ => None,
        }
    } else {
        None
    }
}

/// The string fact stored under `k`, if any.
pub open spec fn str_fact(m: Map<Seq<char>, ValueModel>, k: Seq<char>) -> Option<Seq<char>> {
    if m.contains_key(k) {
        match m[k] {
            ValueModel::Str(s) => Some(s),
            _ => None,
        }
    } else {
        None
    }
}

/// No two entries share a fact name.
spec fn keys_unique(s: Seq<(String, Value)>) -> bool {
    forall|i: int, j: int| 0 <= i < j < s.len() ==> s[i].0@ != s[j].0@
}

/// The mapping described by a sequence of entries; a later entry for the
/// same name wins.
spec fn map_of(s: Seq<(String, Value)>) -> Map<Seq<char>, ValueModel>
    decreases s.len(),
{
    if s.len() == 0 {
        Map::empty()
    } else {
        map_of(s.drop_last()).insert(s.last().0@, s.last().1@)
    }
}

/// A name occurs in the mapping exactly when some entry carries it.
proof fn lemma_map_of_key(s: Seq<(String, Value)>, k: Seq<char>)
    ensures
        map_of(s).contains_key(k) <==> exists|i: int| 0 <= i < s.len() && s[i].0@ == k,
    decreases s.len(),
{
    if s.len() > 0 {
        lemma_map_of_key(s.drop_last(), k);
        if s.last().0@ == k {
            assert(s[s.len() - 1].0@ == k);
        } else {
            if exists|i: int| 0 <= i < s.len() && s[i].0@ == k {
                let i = choose|i: int| 0 <= i < s.len() && s[i].0@ == k;
                assert(s.drop_last()[i] == s[i]);
            }
        }
    }
}

/// With unique names, each entry's value is the mapping's value for its name.
proof fn lemma_map_of_value(s: Seq<(String, Value)>, i: int)
    requires
        keys_unique(s),
        0 <= i < s.len(),
    ensures
        map_of(s).contains_key(s[i].0@),
        map_of(s)[s[i].0@] == s[i].1@,
    decreases s.len(),
{
    if i == s.len() - 1 {
    } else {
        assert(keys_unique(s.drop_last())) by {
            assert(forall|x: int, y: int|
                0 <= x < y < s.drop_last().len() ==> s.drop_last()[x] == s[x]
                    && s.drop_last()[y] == s[y]);
        }
        lemma_map_of_value(s.drop_last(), i);
        assert(s.drop_last()[i] == s[i]);
        assert(s[i].0@ != s.last().0@);
    }
}

/// Removing an entry removes exactly its name from the mapping.
proof fn lemma_map_of_remove(s: Seq<(String, Value)>, i: int)
    requires
        keys_unique(s),
        0 <= i < s.len(),
    ensures
        map_of(s.remove(i)) == map_of(s).remove(s[i].0@),
    decreases s.len(),
{
    assert(keys_unique(s.drop_last())) by {
        assert(forall|x: int, y: int|
            0 <= x < y < s.drop_last().len() ==> s.drop_last()[x] == s[x]
                && s.drop_last()[y] == s[y]);
    }
    if i == s.len() - 1 {
        assert(s.remove(i) =~= s.drop_last());
        lemma_map_of_key(s.drop_last(), s[i].0@);
        assert(map_of(s.drop_last()) =~= map_of(s).remove(s[i].0@));
    } else {
        lemma_map_of_remove(s.drop_last(), i);
        assert(s.remove(i).drop_last() =~= s.drop_last().remove(i));
        assert(s.remove(i).last() == s.last());
        assert(s.remove(i).len() > 0);
        assert(map_of(s.remove(i)) == map_of(s.drop_last().remove(i)).insert(
            s.last().0@,
            s.last().1@,
        ));
        assert(s[i].0@ != s.last().0@);
        assert(map_of(s.drop_last()).remove(s[i].0@).insert(s.last().0@, s.last().1@)
            =~= map_of(s).remove(s[i].0@));
    }
}

/// Overwriting an entry in place updates exactly its name in the mapping.
proof fn lemma_map_of_update(s: Seq<(String, Value)>, i: int, e: (String, Value))
    requires
        keys_unique(s),
        0 <= i < s.len(),
        e.0@ == s[i].0@,
    ensures
        map_of(s.update(i, e)) == map_of(s).insert(e.0@, e.1@),
        keys_unique(s.update(i, e)),
    decreases s.len(),
{
    assert(keys_unique(s.drop_last())) by {
        assert(forall|x: int, y: int|
            0 <= x < y < s.drop_last().len() ==> s.drop_last()[x] == s[x]
                && s.drop_last()[y] == s[y]);
    }
    if i == s.len() - 1 {
        assert(s.update(i, e).drop_last() =~= s.drop_last());
        assert(s.update(i, e).last() == e);
        assert(map_of(s.drop_last()).insert(e.0@, e.1@)
            =~= map_of(s.drop_last()).insert(s.last().0@, s.last().1@).insert(e.0@, e.1@));
    } else {
        lemma_map_of_update(s.drop_last(), i, e);
        assert(s.update(i, e).drop_last() =~= s.drop_last().update(i, e));
        assert(s.update(i, e).last() == s.last());
        assert(s.update(i, e).len() == s.len());
        assert(map_of(s.update(i, e)) == map_of(s.drop_last().update(i, e)).insert(
            s.last().0@,
            s.last().1@,
        ));
        assert(e.0@ != s.last().0@);
        assert(map_of(s.drop_last()).insert(e.0@, e.1@).insert(s.last().0@, s.last().1@)
            =~= map_of(s).insert(e.0@, e.1@));
    }
}

/// With unique names, the mapping has exactly one entry per sequence entry.
proof fn lemma_map_of_len(s: Seq<(String, Value)>)
    requires
        keys_unique(s),
    ensures
        map_of(s).dom().finite(),
        map_of(s).dom().len() == s.len(),
    decreases s.len(),
{
    if s.len() > 0 {
        assert(keys_unique(s.drop_last())) by {
            assert(forall|x: int, y: int|
                0 <= x < y < s.drop_last().len() ==> s.drop_last()[x] == s[x]
                    && s.drop_last()[y] == s[y]);
        }
        lemma_map_of_len(s.drop_last());
        lemma_map_of_key(s.drop_last(), s.last().0@);
        assert(forall|i: int| 0 <= i < s.drop_last().len() ==> s.drop_last()[i] == s[i]);
        assert(!map_of(s.drop_last()).contains_key(s.last().0@));
        assert(map_of(s).dom() =~= map_of(s.drop_last()).dom().insert(s.last().0@));
    }
}

/// The typed fact store (blackboard): an unordered map from fact name to
/// tagged value. Created empty; no operation fails.
#[derive(Debug)]
pub struct Blackboard {
    entries: Vec<(String, Value)>,
}

impl View for Blackboard {
    type V = Map<Seq<char>, ValueModel>;

    closed spec fn view(&self) -> Map<Seq<char>, ValueModel> {
        map_of(self.entries@)
    }
}

impl Blackboard {
    /// Validity of the store's representation: no two entries share a
    /// name. Holds of every store the library hands out.
    #[verifier::type_invariant]
    pub closed spec fn wf(self) -> bool {
        keys_unique(self.entries@)
    }

    /// An empty fact store.
    pub fn new() -> (r: Self)
        ensures
            r@ == Map::<Seq<char>, ValueModel>::empty(),
    {
        Blackboard { entries: Vec::new() }
    }

    /// The position of the entry named `key`, if one exists.
    fn find_index(&self, key: &String) -> (r: Option<usize>)
        ensures
            match r {
                Some(i) => i < self.entries@.len() && self.entries@[i as int].0@ == key@,
                None => forall|j: int| 0 <= j < self.entries@.len()
                    ==> self.entries@[j].0@ != key@,
            },
    {
        let n = self.entries.len();
        let mut i: usize = 0;
        while i < n
            invariant
                i <= n,
                n == self.entries@.len(),
                forall|j: int| 0 <= j < i ==> self.entries@[j].0@ != key@,
            decreases n - i,
        {
            if <String as PartialEq>::eq(&self.entries[i].0, key) {
                return Some(i);
            }
            i += 1;
        }
        None
    }

    /// Stores `value` under `key`, replacing any previous fact of that name.
    fn put_value(&mut self, key: &str, value: Value)
        ensures
            final(self)@ == old(self)@.insert(key@, value@),
    {
        proof {
            use_type_invariant(&*self);
        }
        let k: String = key.to_owned();
        let idx = self.find_index(&k);
        let ghost s0 = self.entries@;
        let mut es: Vec<(String, Value)> = Vec::new();
        core::mem::swap(&mut es, &mut self.entries);
        match idx {
            Some(i) => {
                proof {
                    lemma_map_of_update(s0, i as int, (k, value));
                }
                es[i] = (k, value);
            },
            None => {
                es.push((k, value));
                proof {
                    assert(es@.drop_last() =~= s0);
                    assert(keys_unique(es@)) by {
                        assert(forall|x: int| 0 <= x < s0.len() ==> es@[x] == s0[x]);
                    }
                }
            },
        }
        self.entries = es;
    }

    /// Stores a boolean fact under `key`.
    pub fn insert_bool(&mut self, key: &str, data: bool)
        ensures
            final(self)@ == old(self)@.insert(key@, ValueModel::Bool(data)),
    {
        self.put_value(key, Value::Bool(data));
    }

    /// Stores a numeric fact under `key`.
    pub fn insert_number(&mut self, key: &str, data: u32)
        ensures
            final(self)@ == old(self)@.insert(key@, ValueModel::Number(data)),
    {
        self.put_value(key, Value::Number(data));
    }

    /// Stores a string fact under `key`.
    pub fn insert_str(&mut self, key: &str, data: &str)
        ensures
            final(self)@ == old(self)@.insert(key@, ValueModel::Str(data@)),
    {
        let v: String = data.to_owned();
        self.put_value(key, Value::Str(v));
    }

    /// Reads the boolean fact under `key`; absent or differently tagged
    /// entries read as `None`.
    pub fn get_bool(&self, key: &str) -> (r: Option<bool>)
        ensures
            r == bool_fact(self@, key@),
    {
        proof {
            use_type_invariant(&*self);
        }
        let k: String = key.to_owned();
        match self.find_index(&k) {
            None => {
                proof {
                    lemma_map_of_key(self.entries@, key@);
                }
                None
            },
            Some(i) => {
                proof {
                    lemma_map_of_value(self.entries@, i as int);
                }
                match &self.entries[i].1 {
                    Value::Bool(b) => Some(*b),
                    _ => None,
                }
            },
        }
    }

    /// Reads the numeric fact under `key`.
    pub fn get_number(&self, key: &str) -> (r: Option<u32>)
        ensures
            r == number_fact(self@, key@),
    {
        proof {
            use_type_invariant(&*self);
        }
        let k: String = key.to_owned();
        match self.find_index(&k) {
            None => {
                proof {
                    lemma_map_of_key(self.entries@, key@);
                }
                None
            },
            Some(i) => {
                proof {
                    lemma_map_of_value(self.entries@, i as int);
                }
                match &self.entries[i].1 {
                    Value::Number(n) => Some(*n),
                    _ => None,
                }
            },
        }
    }

    /// Reads the string fact under `key`.
    pub fn get_str(&self, key: &str) -> (r: Option<String>)
        ensures
            match r {
                Some(s) => str_fact(self@, key@) == Some(s@),
                None => str_fact(self@, key@) is None,
            },
    {
        proof {
            use_type_invariant(&*self);
        }
        let k: String = key.to_owned();
        match self.find_index(&k) {
            None => {
                proof {
                    lemma_map_of_key(self.entries@, key@);
                }
                None
            },
            Some(i) => {
                proof {
                    lemma_map_of_value(self.entries@, i as int);
                }
                match &self.entries[i].1 {
                    Value::Str(s) => Some(s.clone()),
                    _ => None,
                }
            },
        }
    }

    /// Removes and returns the fact under `key`, if any.
    pub fn take(&mut self, key: &str) -> (r: Option<Value>)
        ensures
            final(self)@ == old(self)@.remove(key@),
            match r {
                Some(v) => old(self)@.contains_key(key@) && v@ == old(self)@[key@],
                None => !old(self)@.contains_key(key@),
            },
    {
        proof {
            use_type_invariant(&*self);
        }
        let k: String = key.to_owned();
        let idx = self.find_index(&k);
        let ghost s0 = self.entries@;
        match idx {
            None => {
                proof {
                    lemma_map_of_key(s0, key@);
                    assert(self@.remove(key@) =~= self@);
                }
                None
            },
            Some(i) => {
                proof {
                    lemma_map_of_value(s0, i as int);
                    lemma_map_of_remove(s0, i as int);
                }
                let mut es: Vec<(String, Value)> = Vec::new();
                core::mem::swap(&mut es, &mut self.entries);
                let (_, v) = es.remove(i);
                proof {
                    assert(keys_unique(es@)) by {
                        assert(forall|x: int| 0 <= x < es@.len()
                            ==> es@[x] == s0.remove(i as int)[x]);
                    }
                }
                self.entries = es;
                Some(v)
            },
        }
    }
}


impl Clone for Blackboard {
    /// A clone holds exactly the same facts as the store it came from.
    fn clone(&self) -> (r: Blackboard)
        ensures
            r@ == self@,
    {
        proof {
            use_type_invariant(&*self);
        }
        let n = self.entries.len();
        let mut es: Vec<(String, Value)> = Vec::new();
        let mut i: usize = 0;
        while i < n
            invariant
                i <= n,
                n == self.entries@.len(),
                es@.len() == i,
                forall|j: int| 0 <= j < i ==> es@[j] == self.entries@[j],
            decreases n - i,
        {
            let e = &self.entries[i];
            es.push((e.0.clone(), e.1.clone()));
            i += 1;
        }
        proof {
            assert(es@ =~= self.entries@);
        }
        Blackboard { entries: es }
    }
}

impl Blackboard {
    /// Full structural equality over the mapping: every fact present in one
    /// store is present in the other with an equal value, checked in both
    /// directions. Symmetric, and independent of insertion order.
    pub fn equals(&self, other: &Blackboard) -> (r: bool)
        ensures
            r == (self@ == other@),
    {
        proof {
            use_type_invariant(&*self);
            use_type_invariant(&*other);
            lemma_map_of_len(self.entries@);
            lemma_map_of_len(other.entries@);
        }
        if self.entries.len() != other.entries.len() {
            return false;
        }
        let n = self.entries.len();
        let mut i: usize = 0;
        while i < n
            invariant
                i <= n,
                n == self.entries@.len(),
                n == other.entries@.len(),
                keys_unique(self.entries@),
                keys_unique(other.entries@),
                forall|j: int| 0 <= j < i ==> other@.contains_key(
                    #[trigger] self.entries@[j].0@,
                ) && other@[self.entries@[j].0@] == self.entries@[j].1@,
            decreases n - i,
        {
            match other.find_index(&self.entries[i].0) {
                None => {
                    proof {
                        lemma_map_of_value(self.entries@, i as int);
                        lemma_map_of_key(other.entries@, self.entries@[i as int].0@);
                    }
                    return false;
                },
                Some(j) => {
                    proof {
                        lemma_map_of_value(self.entries@, i as int);
                        lemma_map_of_value(other.entries@, j as int);
                    }
                    if !self.entries[i].1.equals(&other.entries[j].1) {
                        return false;
                    }
                },
            }
            i += 1;
        }
        proof {
            assert forall|k: Seq<char>| #[trigger] self@.dom().contains(k)
                implies other@.dom().contains(k) && other@[k] == self@[k] by {
                lemma_map_of_key(self.entries@, k);
                let idx = choose|idx: int|
                    0 <= idx < self.entries@.len() && self.entries@[idx].0@ == k;
                lemma_map_of_value(self.entries@, idx);
            }
            assert(self@.dom().subset_of(other@.dom()));
            vstd::set_lib::lemma_subset_equality(self@.dom(), other@.dom());
            assert(self@ =~= other@);
        }
        true
    }

    /// The hash of the whole store: an order-independent (modular sum)
    /// combination of per-entry hashes, consistent with `equals`.
    pub closed spec fn hash_spec(&self) -> int {
        sum_hashes(self.entries@)
    }

    /// Computes the store's hash.
    pub fn hash(&self) -> (h: u64)
        ensures
            h as int == self.hash_spec(),
    {
        proof {
            use_type_invariant(&*self);
        }
        let n = self.entries.len();
        let mut h: u64 = 0;
        let mut i: usize = 0;
        while i < n
            invariant
                i <= n,
                n == self.entries@.len(),
                h as int == sum_hashes(self.entries@.subrange(0, i as int)),
                h < 0x1_0000_0000,
            decreases n - i,
        {
            let e = &self.entries[i];
            let kh = hash_str(&e.0);
            let vh = hash_of_value(&e.1);
            let eh = (kh * 33 + vh) % 0x1_0000_0000;
            proof {
                assert(self.entries@.subrange(0, i + 1).drop_last() =~= self.entries@.subrange(
                    0,
                    i as int,
                ));
                assert(self.entries@.subrange(0, i + 1).last() == self.entries@[i as int]);
            }
            h = (h + eh) % 0x1_0000_0000;
            i += 1;
        }
        proof {
            assert(self.entries@.subrange(0, n as int) =~= self.entries@);
        }
        h
    }
}

/// A rolling hash of a character sequence.
spec fn hash_chars(s: Seq<char>) -> int
    decreases s.len(),
{
    if s.len() == 0 {
        5381
    } else {
        (hash_chars(s.drop_last()) * 31 + s.last() as int) % 0x1_0000_0000
    }
}

/// The hash of a single fact value.
spec fn value_hash(v: ValueModel) -> int {
    match v {
        ValueModel::Bool(b) => if b {
            3
        } else {
            2
        },
        ValueModel::Number(n) => (11 + n as int) % 0x1_0000_0000,
        ValueModel::Str(s) => (17 + hash_chars(s)) % 0x1_0000_0000,
    }
}

/// The hash of one named entry.
spec fn entry_hash(k: Seq<char>, v: ValueModel) -> int {
    (hash_chars(k) * 33 + value_hash(v)) % 0x1_0000_0000
}

/// The modular sum of all entry hashes; addition commutes, so the result
/// does not depend on entry order.
spec fn sum_hashes(s: Seq<(String, Value)>) -> int
    decreases s.len(),
{
    if s.len() == 0 {
        0
    } else {
        (sum_hashes(s.drop_last()) + entry_hash(s.last().0@, s.last().1@)) % 0x1_0000_0000
    }
}

/// Computes the rolling hash of a string's characters.
fn hash_str(s: &str) -> (h: u64)
    ensures
        h as int == hash_chars(s@),
        h < 0x1_0000_0000,
{
    let n = s.unicode_len();
    let mut h: u64 = 5381;
    let mut i: usize = 0;
    while i < n
        invariant
            i <= n,
            n == s@.len(),
            h as int == hash_chars(s@.subrange(0, i as int)),
            h < 0x1_0000_0000,
        decreases n - i,
    {
        let c = s.get_char(i);
        proof {
            assert(s@.subrange(0, i + 1).drop_last() =~= s@.subrange(0, i as int));
            assert(s@.subrange(0, i + 1).last() == s@[i as int]);
        }
        h = (h * 31 + ((c as u32) as u64)) % 0x1_0000_0000;
        i += 1;
    }
    proof {
        assert(s@.subrange(0, n as int) =~= s@);
    }
    h
}

/// Computes the hash of a single fact value.
fn hash_of_value(v: &Value) -> (h: u64)
    ensures
        h as int == value_hash(v@),
        h < 0x1_0000_0000,
{
    match v {
        Value::Bool(b) => if *b {
            3
        } else {
            2
        },
        Value::Number(n) => (11 + (*n as u64)) % 0x1_0000_0000,
        Value::Str(s) => (17 + hash_str(s)) % 0x1_0000_0000,
    }
}

/// Removing any one entry takes exactly its hash out of the modular sum.
proof fn lemma_sum_remove(s: Seq<(String, Value)>, i: int)
    requires
        0 <= i < s.len(),
    ensures
        sum_hashes(s) == (sum_hashes(s.remove(i)) + entry_hash(s[i].0@, s[i].1@))
            % 0x1_0000_0000,
    decreases s.len(),
{
    let m = 0x1_0000_0000int;
    if i == s.len() - 1 {
        assert(s.remove(i) =~= s.drop_last());
    } else {
        let t = s.drop_last();
        let el = entry_hash(s.last().0@, s.last().1@);
        let ei = entry_hash(s[i].0@, s[i].1@);
        lemma_sum_remove(t, i);
        let x = sum_hashes(t.remove(i));
        assert(s.remove(i).drop_last() =~= t.remove(i));
        assert(s.remove(i).last() == s.last());
        assert(s.remove(i).len() > 0);
        assert(sum_hashes(s.remove(i)) == (x + el) % m);
        assert(sum_hashes(s) == ((x + ei) % m + el) % m);
        assert(((x + ei) % m + el) % m == (x + ei + el) % m) by {
            vstd::arithmetic::div_mod::lemma_add_mod_noop(x + ei, el, m);
            vstd::arithmetic::div_mod::lemma_small_mod(el as nat, m as nat);
        }
        assert(((x + el) % m + ei) % m == (x + el + ei) % m) by {
            vstd::arithmetic::div_mod::lemma_add_mod_noop(x + el, ei, m);
            vstd::arithmetic::div_mod::lemma_small_mod(ei as nat, m as nat);
        }
    }
}

/// Two entry sequences with unique names that describe the same mapping
/// have the same modular hash sum.
proof fn lemma_sum_by_map(s1: Seq<(String, Value)>, s2: Seq<(String, Value)>)
    requires
        keys_unique(s1),
        keys_unique(s2),
        map_of(s1) == map_of(s2),
    ensures
        sum_hashes(s1) == sum_hashes(s2),
    decreases s1.len(),
{
    lemma_map_of_len(s1);
    lemma_map_of_len(s2);
    if s1.len() == 0 {
    } else {
        let k = s1.last().0@;
        lemma_map_of_value(s1, s1.len() - 1);
        lemma_map_of_key(s2, k);
        let j = choose|j: int| 0 <= j < s2.len() && s2[j].0@ == k;
        lemma_map_of_value(s2, j);
        let t1 = s1.drop_last();
        let t2 = s2.remove(j);
        lemma_map_of_remove(s1, s1.len() - 1);
        assert(s1.remove(s1.len() - 1) =~= t1);
        lemma_map_of_remove(s2, j);
        assert(keys_unique(t1)) by {
            assert(forall|x: int, y: int|
                0 <= x < y < t1.len() ==> t1[x] == s1[x] && t1[y] == s1[y]);
        }
        assert(keys_unique(t2)) by {
            assert(forall|x: int|
                0 <= x < t2.len() ==> t2[x] == (if x < j {
                    s2[x]
                } else {
                    s2[x + 1]
                }));
        }
        lemma_sum_by_map(t1, t2);
        lemma_sum_remove(s2, j);
        assert(entry_hash(s2[j].0@, s2[j].1@) == entry_hash(s1.last().0@, s1.last().1@));
    }
}

/// Fact-store equality is symmetric: `A` equals `B` exactly when `B`
/// equals `A`.
pub proof fn lemma_equals_symmetric(a: &Blackboard, b: &Blackboard)
    ensures
        (a@ == b@) <==> (b@ == a@),
{
}

/// Insertion order never affects a fact store's contents: storing facts
/// under two distinct names commutes.
pub proof fn lemma_insert_order_independent(
    m: Map<Seq<char>, ValueModel>,
    k1: Seq<char>,
    v1: ValueModel,
    k2: Seq<char>,
    v2: ValueModel,
)
    requires
        k1 != k2,
    ensures
        m.insert(k1, v1).insert(k2, v2) == m.insert(k2, v2).insert(k1, v1),
{
    assert(m.insert(k1, v1).insert(k2, v2) =~= m.insert(k2, v2).insert(k1, v1));
}

/// Re-storing a fact under the same name keeps only the latest value.
pub proof fn lemma_insert_last_wins(
    m: Map<Seq<char>, ValueModel>,
    k: Seq<char>,
    v1: ValueModel,
    v2: ValueModel,
)
    ensures
        m.insert(k, v1).insert(k, v2) == m.insert(k, v2),
{
    assert(m.insert(k, v1).insert(k, v2) =~= m.insert(k, v2));
}

/// The fact-store hash is consistent with fact-store equality: equal
/// stores hash alike.
pub proof fn lemma_hash_consistent_with_equality(a: &Blackboard, b: &Blackboard)
    requires
        a.wf(),
        b.wf(),
    ensures
        a@ == b@ ==> a.hash_spec() == b.hash_spec(),
{
    if a@ == b@ {
        lemma_sum_by_map(a.entries@, b.entries@);
    }
}

} // verus!
