//! Tables: an array part for small positive integer keys and a map part for
//! every other key.

use vstd::prelude::*;
use crate::error::VmError;
use crate::slots::{lemma_models_add, put, set_vec};
use crate::value::{Value, Val, models, values_equal};

verus! {

/// A table.
///
/// The array part holds the values of the keys `1..=len`. It has a capacity,
/// which decides where later integer keys go: it starts as the hint given
/// at creation, and whenever the array part outgrows it, it becomes twice
/// what it was, or what is needed if that is more, and no less than 4.
///
/// The map part is a list of entries, searched by [`values_equal`]; a key
/// is entered once and keeps its first spelling.
#[derive(Debug)]
pub struct Table {
    array: Vec<Value>,
    capacity: usize,
    map: Vec<(Value, Value)>,
}

/// What a [`Table`] stands for.
pub ghost struct TableModel {
    pub array: Seq<Val>,
    pub capacity: nat,
    pub entries: Seq<(Val, Val)>,
}

/// The views of a list of entries.
pub open spec fn entry_models(s: Seq<(Value, Value)>) -> Seq<(Val, Val)> {
    Seq::new(s.len(), |i: int| (s[i].0@, s[i].1@))
}

impl View for Table {
    type V = TableModel;

    closed spec fn view(&self) -> TableModel {
        TableModel {
            array: models(self.array@),
            capacity: self.capacity as nat,
            entries: entry_models(self.map@),
        }
    }
}

/// The place of the first entry at or behind `from` whose key equals `key`,
/// or the number of entries if there is none.
pub open spec fn find_from(entries: Seq<(Val, Val)>, key: Val, from: int) -> int
    decreases entries.len() - from,
{
    if from >= entries.len() {
        entries.len() as int
    } else if values_equal(entries[from].0, key) {
        from
    } else {
        find_from(entries, key, from + 1)
    }
}

/// The value entered under `key`, or `nil`.
pub open spec fn lookup(entries: Seq<(Val, Val)>, key: Val) -> Val {
    let k = find_from(entries, key, 0);
    if 0 <= k < entries.len() {
        entries[k].1
    } else {
        Val::Nil
    }
}

/// The entries after `value` has been entered under `key`: an entry whose
/// key equals `key` gets the value and keeps its key; otherwise a new entry
/// is added.
pub open spec fn store(entries: Seq<(Val, Val)>, key: Val, value: Val) -> Seq<(Val, Val)> {
    let k = find_from(entries, key, 0);
    if 0 <= k < entries.len() {
        entries.update(k, (entries[k].0, value))
    } else {
        entries.push((key, value))
    }
}

/// The capacity once the array part must hold `need` values.
pub open spec fn grown(capacity: nat, need: nat) -> nat {
    if need <= capacity {
        capacity
    } else if 2 * capacity >= need && 2 * capacity >= 4 {
        if 2 * capacity > usize::MAX {
            usize::MAX as nat
        } else {
            2 * capacity
        }
    } else if need >= 4 {
        need
    } else {
        4
    }
}

impl TableModel {
    /// Whether the integer key `i` goes to the array part.
    pub open spec fn in_array(self, i: i64) -> bool {
        0 < i <= usize::MAX && (i < 4 || i < 2 * self.capacity)
    }

    /// What reading the integer key `i` gives: the array part is asked
    /// first, then the map part.
    pub open spec fn get_int(self, i: i64) -> Val {
        if 1 <= i <= self.array.len() {
            self.array[i - 1]
        } else {
            lookup(self.entries, Val::Integer(i))
        }
    }

    /// What reading `key` gives. Only an integer key reaches the array part.
    pub open spec fn get(self, key: Val) -> Val {
        match key {
            Val::Integer(i) => self.get_int(i),
            _ => lookup(self.entries, key),
        }
    }

    /// The table after `value` has been written under the integer key `i`.
    /// A write beyond the end of the array part fills the gap with nil and
    /// then appends, and the capacity grows at each of the two steps.
    pub open spec fn set_int(self, i: i64, value: Val) -> TableModel {
        if self.in_array(i) {
            TableModel {
                array: put(self.array, i - 1, value),
                capacity: if i <= self.array.len() {
                    self.capacity
                } else {
                    grown(grown(self.capacity, (i - 1) as nat), i as nat)
                },
                entries: self.entries,
            }
        } else {
            TableModel {
                array: self.array,
                capacity: self.capacity,
                entries: store(self.entries, Val::Integer(i), value),
            }
        }
    }

    /// The table after `value` has been written under `key`, which is not
    /// `nil`.
    pub open spec fn set(self, key: Val, value: Val) -> TableModel {
        match key {
            Val::Integer(i) => self.set_int(i, value),
            _ => TableModel {
                array: self.array,
                capacity: self.capacity,
                entries: store(self.entries, key, value),
            },
        }
    }

    /// The table after `values` have been appended to the array part.
    pub open spec fn append(self, values: Seq<Val>) -> TableModel {
        TableModel {
            array: self.array + values,
            capacity: grown(self.capacity, self.array.len() + values.len()),
            entries: self.entries,
        }
    }
}

fn grow(capacity: usize, need: usize) -> (r: usize)
    ensures
        r == grown(capacity as nat, need as nat),
{
    if need <= capacity {
        capacity
    } else if capacity >= need - capacity && capacity >= 2 {
        if capacity > usize::MAX - capacity {
            usize::MAX
        } else {
            capacity + capacity
        }
    } else if need >= 4 {
        need
    } else {
        4
    }
}

impl Table {
    /// An empty table. `narray` is the capacity of its array part; `nmap`
    /// is a hint for the map part and changes nothing that can be seen.
    pub fn new(narray: usize, nmap: usize) -> (r: Table)
        ensures
            r@ == (TableModel { array: Seq::empty(), capacity: narray as nat, entries: Seq::empty() }),
    {
        let r = Table { array: Vec::new(), capacity: narray, map: Vec::new() };
        assert(r@.array =~= Seq::empty());
        assert(r@.entries =~= Seq::empty());
        r
    }

    /// The length of the array part.
    pub fn len(&self) -> (r: usize)
        ensures
            r == self@.array.len(),
    {
        self.array.len()
    }

    fn find(&self, key: &Value) -> (r: usize)
        ensures
            r == find_from(self@.entries, key@, 0),
            r <= self.map@.len(),
    {
        let mut k: usize = 0;
        while k < self.map.len()
            invariant
                k <= self.map@.len(),
                find_from(self@.entries, key@, 0) == find_from(self@.entries, key@, k as int),
            decreases self.map@.len() - k,
        {
            if self.map[k].0.equals(key) {
                return k;
            }
            k += 1;
        }
        k
    }

    fn lookup(&self, key: &Value) -> (r: Value)
        ensures
            r@ == lookup(self@.entries, key@),
    {
        let k = self.find(key);
        if k < self.map.len() {
            self.map[k].1.clone()
        } else {
            Value::Nil
        }
    }

    fn store(&mut self, key: Value, value: Value)
        ensures
            final(self)@ == (TableModel {
                array: old(self)@.array,
                capacity: old(self)@.capacity,
                entries: store(old(self)@.entries, key@, value@),
            }),
    {
        let k = self.find(&key);
        if k < self.map.len() {
            self.map[k].1 = value;
            assert(self@.entries =~= store(old(self)@.entries, key@, value@));
        } else {
            self.map.push((key, value));
            assert(self@.entries =~= store(old(self)@.entries, key@, value@));
        }
    }

    /// Reads the integer key `i`.
    pub fn get_int(&self, i: i64) -> (r: Value)
        ensures
            r@ == self@.get_int(i),
    {
        if i >= 1 && (i as u64) <= (self.array.len() as u64) {
            self.array[(i - 1) as usize].clone()
        } else {
            self.lookup(&Value::Integer(i))
        }
    }

    /// Reads `key`. A key that is in neither part gives `nil`.
    pub fn get(&self, key: &Value) -> (r: Value)
        ensures
            r@ == self@.get(key@),
    {
        match key {
            Value::Integer(i) => self.get_int(*i),
            _ => self.lookup(key),
        }
    }

    /// Writes `value` under the integer key `i`.
    pub fn set_int(&mut self, i: i64, value: Value)
        ensures
            final(self)@ == old(self)@.set_int(i, value@),
    {
        if i > 0 && (i as u64) <= (usize::MAX as u64) && (i < 4 || (i as u128) < 2 * (
        self.capacity as u128)) {
            let at: usize = (i - 1) as usize;
            if at >= self.array.len() {
                let c = grow(self.capacity, at);
                self.capacity = grow(c, at + 1);
            }
            set_vec(&mut self.array, at, value);
        } else {
            self.store(Value::Integer(i), value);
        }
    }

    /// Writes `value` under `key`. A table has no key `nil`.
    pub fn set(&mut self, key: Value, value: Value) -> (r: Result<(), VmError>)
        ensures
            key@ is Nil ==> r == Err::<(), VmError>(VmError::Type) && final(self)@ == old(self)@,
            !(key@ is Nil) ==> r is Ok && final(self)@ == old(self)@.set(key@, value@),
    {
        match key {
            Value::Nil => Err(VmError::Type),
            Value::Integer(i) => {
                self.set_int(i, value);
                Ok(())
            },
            _ => {
                self.store(key, value);
                Ok(())
            },
        }
    }

    /// Appends `values` to the array part.
    pub fn append(&mut self, values: Vec<Value>)
        ensures
            final(self)@ == old(self)@.append(models(values@)),
    {
        let mut values = values;
        let ghost given = values@;
        self.array.append(&mut values);
        self.capacity = grow(self.capacity, self.array.len());
        proof {
            lemma_models_add(old(self).array@, given);
        }
    }
}

} // verus!
