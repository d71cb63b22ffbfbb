//! The executor's memory: thirty-two registers held in an array, and every other
//! word in a hash table keyed by its translated address.
//!
//! The hash table is `hashbrown`'s. It is held in [`Table`], whose contents are
//! named by [`table_contents`]; the functions marked `external_body` are the
//! boundary to it, and their contracts restate the documentation of the method
//! they call.
use hashbrown::hash_map::DefaultHashBuilder;
use hashbrown::HashMap;
use vstd::prelude::*;

verus! {

/// The number of registers.
pub const NUM_REGISTERS: u32 = 32;

/// The lowest address that is kept in the hash table.
pub const TABLE_BASE: u32 = 0x10000;

/// What is known of one word of memory: its value, and when it was last accessed.
#[derive(Debug, Clone, Copy, PartialEq, Eq, Default)]
pub struct MemoryRecord {
    pub shard: u32,
    pub timestamp: u32,
    pub value: u32,
}

/// A hash table from translated addresses to records.
///
/// The map type of `hashbrown` is bound by an allocator trait that cannot be
/// declared to Verus, so the map is held in this struct, whose inside is no part
/// of the proofs: a table is known by what `table_contents` says that it holds.
#[verifier::external_body]
#[derive(Debug)]
pub struct Table {
    map: HashMap<u32, MemoryRecord, DefaultHashBuilder>,
}

/// The contents of an empty table.
pub open spec fn no_words() -> Map<u32, MemoryRecord> {
    Map::empty()
}

/// What a table holds.
pub uninterp spec fn table_contents(t: Table) -> Map<u32, MemoryRecord>;

/// `HashMap::with_capacity_and_hasher`: an empty table.
///
/// The capacity is bounded so that the layout of the table fits the address space,
/// beyond which `hashbrown` panics.
#[verifier::external_body]
fn table_with_capacity(capacity: usize) -> (t: Table)
    requires
        capacity <= usize::MAX / 128,
    ensures
        table_contents(t) == no_words(),
{
    Table { map: HashMap::with_capacity_and_hasher(capacity, DefaultHashBuilder::default()) }
}

/// `HashMap`'s `clone`: a table that holds what this one holds.
#[verifier::external_body]
fn table_clone(t: &Table) -> (r: Table)
    ensures
        table_contents(r) == table_contents(*t),
{
    Table { map: t.map.clone() }
}

/// `HashMap::get`: the value at the key, if the table holds the key.
#[verifier::external_body]
fn table_get(t: &Table, k: u32) -> (r: Option<&MemoryRecord>)
    ensures
        r == (if table_contents(*t).contains_key(k) {
            Some(&table_contents(*t)[k])
        } else {
            None
        }),
{
    t.map.get(&k)
}

/// `HashMap::insert`: the table holds the value at the key afterwards, and the value
/// that it held there before is returned.
#[verifier::external_body]
fn table_insert(t: &mut Table, k: u32, v: MemoryRecord) -> (r: Option<MemoryRecord>)
    ensures
        table_contents(*final(t)) == table_contents(*old(t)).insert(k, v),
        r == (if table_contents(*old(t)).contains_key(k) {
            Some(table_contents(*old(t))[k])
        } else {
            None
        }),
{
    t.map.insert(k, v)
}

/// `HashMap::remove`: the table does not hold the key afterwards, and the value that
/// it held there before is returned.
#[verifier::external_body]
fn table_remove(t: &mut Table, k: u32) -> (r: Option<MemoryRecord>)
    ensures
        table_contents(*final(t)) == table_contents(*old(t)).remove(k),
        r == (if table_contents(*old(t)).contains_key(k) {
            Some(table_contents(*old(t))[k])
        } else {
            None
        }),
{
    t.map.remove(&k)
}

/// `HashMap::get_mut`: the place of the value at the key, if the table holds the key.
/// What is written to the place is what the table holds at the key afterwards.
#[verifier::external_body]
fn table_get_mut(t: &mut Table, k: u32) -> (r: Option<&mut MemoryRecord>)
    ensures
        r is Some == table_contents(*old(t)).contains_key(k),
        r matches Some(place) ==> *place == table_contents(*old(t))[k] && table_contents(
            *final(t),
        ) == table_contents(*old(t)).insert(k, *final(place)),
        r is None ==> table_contents(*final(t)) == table_contents(*old(t)),
{
    t.map.get_mut(&k)
}

/// `HashMap::drain`: the table is empty afterwards, and each pair that it held is
/// returned once, in no order that could be relied on.
#[verifier::external_body]
fn table_drain(t: &mut Table) -> (r: Vec<(u32, MemoryRecord)>)
    ensures
        table_contents(*final(t)) == no_words(),
        holds_exactly(r@, table_contents(*old(t))),
{
    t.map.drain().collect()
}

/// The pairs are those of the map, each once.
pub open spec fn holds_exactly(pairs: Seq<(u32, MemoryRecord)>, m: Map<u32, MemoryRecord>) -> bool {
    &&& forall|i: int| 0 <= i < pairs.len() ==> #[trigger] m.contains_pair(pairs[i].0, pairs[i].1)
    &&& forall|i: int, j: int|
        0 <= i < j < pairs.len() ==> (#[trigger] pairs[i]).0 != (#[trigger] pairs[j]).0
    &&& forall|k: u32| #[trigger]
        m.contains_key(k) ==> exists|i: int| 0 <= i < pairs.len() && (#[trigger] pairs[i]).0 == k
}

/// An address can be looked up: it names a register, or a word of the table.
pub open spec fn is_addressable(addr: u32) -> bool {
    addr < NUM_REGISTERS || addr >= TABLE_BASE
}

/// The key under which the table holds the word at `addr`: the index of the word,
/// counted from the base of the table. The four addresses of a word share a key.
pub open spec fn spec_translate_addr(addr: u32) -> u32 {
    ((addr - TABLE_BASE) / 4) as u32
}

/// What a memory holds: the registers in order, and the words by translated address.
pub struct MemoryView {
    pub registers: Seq<Option<MemoryRecord>>,
    pub words: Map<u32, MemoryRecord>,
}

impl MemoryView {
    /// What is held for the word with the translated address `key`.
    pub open spec fn word(self, key: u32) -> Option<MemoryRecord> {
        if self.words.contains_key(key) {
            Some(self.words[key])
        } else {
            None
        }
    }

    /// What is held at an address.
    pub open spec fn at(self, addr: u32) -> Option<MemoryRecord> {
        if addr < NUM_REGISTERS {
            self.registers[addr as int]
        } else {
            self.word(spec_translate_addr(addr))
        }
    }

    /// The same memory, with `value` in the register `index`.
    pub open spec fn with_register(self, index: u32, value: Option<MemoryRecord>) -> MemoryView {
        MemoryView { registers: self.registers.update(index as int, value), words: self.words }
    }

    /// The same memory, with `value` for the word with the translated address `key`.
    pub open spec fn with_word(self, key: u32, value: Option<MemoryRecord>) -> MemoryView {
        MemoryView {
            registers: self.registers,
            words: match value {
                Some(record) => self.words.insert(key, record),
                None => self.words.remove(key),
            },
        }
    }

    /// The same memory, with `value` at an address.
    pub open spec fn with_value(self, addr: u32, value: Option<MemoryRecord>) -> MemoryView {
        if addr < NUM_REGISTERS {
            self.with_register(addr, value)
        } else {
            self.with_word(spec_translate_addr(addr), value)
        }
    }

    /// Nothing is held.
    pub open spec fn is_empty(self) -> bool {
        &&& forall|i: int| 0 <= i < self.registers.len() ==> self.registers[i] is None
        &&& self.words == no_words()
    }
}

/// The memory: registers and table.
#[derive(Debug)]
pub struct MemoryMap {
    pub registers: [Option<MemoryRecord>; 32],
    pub memory: Table,
}

/// The memory.
pub type Memory = MemoryMap;

impl View for MemoryMap {
    type V = MemoryView;

    open spec fn view(&self) -> MemoryView {
        MemoryView { registers: self.registers@, words: table_contents(self.memory) }
    }
}

impl Clone for MemoryMap {
    /// A memory that holds what this one holds.
    fn clone(&self) -> (r: Self)
        ensures
            r@ == self@,
    {
        Self { registers: self.registers, memory: table_clone(&self.memory) }
    }
}

impl Default for MemoryMap {
    /// An empty memory.
    fn default() -> (r: Self)
        ensures
            r@.is_empty(),
    {
        Self::new()
    }
}

impl MemoryMap {
    /// An empty memory. `capacity` sizes the first allocation of the table, not what is held.
    pub fn with_capacity(capacity: usize) -> (r: Self)
        requires
            capacity <= usize::MAX / 128,
        ensures
            r@.is_empty(),
    {
        let memory = table_with_capacity(capacity);
        Self { memory, registers: [None;32] }
    }

    /// An empty memory.
    pub fn new() -> (r: Self)
        ensures
            r@.is_empty(),
    {
        Self::with_capacity(0)
    }

    /// The key under which the table holds the word at `addr`.
    fn translate_addr(addr: u32) -> (r: u32)
        requires
            addr >= TABLE_BASE,
        ensures
            r == spec_translate_addr(addr),
    {
        let offset: u32 = addr - 0x10000;
        assert(offset >> 2 == offset / 4) by (bit_vector);
        offset >> 2
    }

    /// The table.
    pub fn into_inner(self) -> (r: Table)
        ensures
            table_contents(r) == self@.words,
    {
        self.memory
    }

    /// The record at an address, if there is one.
    pub fn get(&self, addr: &u32) -> (r: Option<&MemoryRecord>)
        requires
            is_addressable(*addr),
        ensures
            option_deref(r) == self@.at(*addr),
    {
        if *addr < 32 {
            return self.registers[*addr as usize].as_ref();
        }
        table_get(&self.memory, Self::translate_addr(*addr))
    }

    /// What a look at one address finds: the record that is held there, or that
    /// nothing is. The entry describes the memory until the memory changes.
    pub fn entry(&self, addr: u32) -> (r: MemEntry)
        requires
            is_addressable(addr),
        ensures
            r.describes(self@),
            r.place() == place_of(addr),
    {
        if addr < 32 {
            return match self.registers[addr as usize] {
                Some(record) => MemEntry::Occupied(MemOccupied::Register(addr, record)),
                None => MemEntry::Vacant(MemVacant::Register(addr)),
            };
        }
        let key = Self::translate_addr(addr);
        match table_get(&self.memory, key) {
            None => MemEntry::Vacant(MemVacant::HashMap(key)),
            Some(record) => MemEntry::Occupied(MemOccupied::HashMap(key, *record)),
        }
    }

    /// Puts a record at an address, and returns the one that was there.
    pub fn insert(&mut self, addr: u32, record: MemoryRecord) -> (r: Option<MemoryRecord>)
        requires
            is_addressable(addr),
        ensures
            r == old(self)@.at(addr),
            final(self)@ == old(self)@.with_value(addr, Some(record)),
    {
        if addr < 32 {
            let previous = self.registers[addr as usize];
            self.registers[addr as usize] = Some(record);
            return previous;
        }
        table_insert(&mut self.memory, Self::translate_addr(addr), record)
    }

    /// Takes the record at an address away, and returns it.
    pub fn remove(&mut self, addr: &u32) -> (r: Option<MemoryRecord>)
        requires
            is_addressable(*addr),
        ensures
            r == old(self)@.at(*addr),
            final(self)@ == old(self)@.with_value(*addr, None),
    {
        if *addr < 32 {
            let previous = self.registers[*addr as usize];
            self.registers[*addr as usize] = None;
            return previous;
        }
        table_remove(&mut self.memory, Self::translate_addr(*addr))
    }

    /// Empties the memory and returns what it held: first the registers that held a
    /// record, in order, each under its index; then the words of the table, in no
    /// order that could be relied on, each under its translated address.
    pub fn drain(&mut self) -> (r: Vec<(u32, MemoryRecord)>)
        ensures
            final(self)@.is_empty(),
            drained_registers(old(self)@.registers, 32).len() <= r@.len(),
            r@.take(drained_registers(old(self)@.registers, 32).len() as int) == drained_registers(
                old(self)@.registers,
                32,
            ),
            holds_exactly(
                r@.skip(drained_registers(old(self)@.registers, 32).len() as int),
                old(self)@.words,
            ),
    {
        let mut out: Vec<(u32, MemoryRecord)> = Vec::new();
        let mut register: u32 = 0;
        while register < 32
            invariant
                register <= 32,
                out@ == drained_registers(old(self)@.registers, register as int),
                self@.words == old(self)@.words,
                forall|i: int| 0 <= i < register ==> self@.registers[i] is None,
                forall|i: int| register <= i < 32 ==> self@.registers[i] == old(self)@.registers[i],
            decreases 32 - register,
        {
            let addr: u32 = register;
            register += 1;
            if let Some(value) = self.remove(&addr) {
                out.push((addr, value));
            }
        }
        let ghost n = out@.len() as int;
        let ghost from_registers = out@;
        let ghost registers = self@.registers;
        let mut rest = table_drain(&mut self.memory);
        let ghost from_table = rest@;
        out.append(&mut rest);
        proof {
            assert(self@.registers == registers);
            assert(out@.take(n) =~= from_registers);
            assert(out@.skip(n) =~= from_table);
        }
        out
    }
}

/// The value behind a reference that may be missing.
pub open spec fn option_deref(r: Option<&MemoryRecord>) -> Option<MemoryRecord> {
    match r {
        Some(v) => Some(*v),
        None => None,
    }
}

/// The records of the first `n` registers that hold one, in order, each with its
/// index.
pub open spec fn drained_registers(registers: Seq<Option<MemoryRecord>>, n: int) -> Seq<
    (u32, MemoryRecord),
>
    decreases n,
{
    if n <= 0 {
        Seq::empty()
    } else {
        let before = drained_registers(registers, n - 1);
        match registers[n - 1] {
            Some(value) => before.push(((n - 1) as u32, value)),
            None => before,
        }
    }
}

/// A place in the memory at which nothing is held: a register, by its index, or a
/// word of the table, by its translated address.
#[derive(Debug, Clone, Copy, PartialEq, Eq)]
pub enum MemVacant {
    Register(u32),
    HashMap(u32),
}

/// A place in the memory at which a record is held, with that record: a register, by
/// its index, or a word of the table, by its translated address.
#[derive(Debug, Clone, Copy, PartialEq, Eq)]
pub enum MemOccupied {
    Register(u32, MemoryRecord),
    HashMap(u32, MemoryRecord),
}

/// What a look at one address found.
#[derive(Debug, Clone, Copy, PartialEq, Eq)]
pub enum MemEntry {
    Occupied(MemOccupied),
    Vacant(MemVacant),
}

/// The place at which the memory keeps what is at an address.
pub open spec fn place_of(addr: u32) -> MemVacant {
    if addr < NUM_REGISTERS {
        MemVacant::Register(addr)
    } else {
        MemVacant::HashMap(spec_translate_addr(addr))
    }
}

impl MemVacant {
    /// What the memory holds at the place.
    pub open spec fn held(&self, memory: MemoryView) -> Option<MemoryRecord> {
        match *self {
            MemVacant::Register(index) => memory.registers[index as int],
            MemVacant::HashMap(key) => memory.word(key),
        }
    }

    /// The place is in the memory, and nothing is held there.
    pub open spec fn describes(&self, memory: MemoryView) -> bool {
        &&& *self matches MemVacant::Register(index) ==> index < memory.registers.len()
        &&& self.held(memory) is None
    }

    /// The memory with `record` at the place.
    pub open spec fn filled(&self, memory: MemoryView, record: MemoryRecord) -> MemoryView {
        match *self {
            MemVacant::Register(index) => memory.with_register(index, Some(record)),
            MemVacant::HashMap(key) => memory.with_word(key, Some(record)),
        }
    }

    /// Puts a record at the place, and returns the place of the record in the memory:
    /// what is written there is what the memory holds at the place afterwards.
    pub fn insert(self, map: &mut MemoryMap, record: MemoryRecord) -> (r: &mut MemoryRecord)
        requires
            self.describes(old(map)@),
        ensures
            *r == record,
            final(map)@ == self.filled(old(map)@, *final(r)),
    {
        let ghost before = map@;
        match self {
            MemVacant::Register(index) => {
                map.registers[index as usize] = Some(record);
                let place = match &mut map.registers[index as usize] {
                    Some(place) => place,
                    None => unreached(),
                };
                proof {
                    let i = index as int;
                    assert(before.registers.update(i, Some(record)).update(i, Some(*final(place)))
                        =~= before.registers.update(i, Some(*final(place))));
                }
                place
            },
            MemVacant::HashMap(key) => {
                table_insert(&mut map.memory, key, record);
                let place = match table_get_mut(&mut map.memory, key) {
                    Some(place) => place,
                    None => unreached(),
                };
                proof {
                    assert(before.words.insert(key, record).insert(key, *final(place))
                        =~= before.words.insert(key, *final(place)));
                }
                place
            },
        }
    }
}

impl MemOccupied {
    /// The place.
    pub open spec fn place(&self) -> MemVacant {
        match *self {
            MemOccupied::Register(index, _) => MemVacant::Register(index),
            MemOccupied::HashMap(key, _) => MemVacant::HashMap(key),
        }
    }

    /// The record that is held at the place.
    pub open spec fn record(&self) -> MemoryRecord {
        match *self {
            MemOccupied::Register(_, record) => record,
            MemOccupied::HashMap(_, record) => record,
        }
    }

    /// The same place, holding another record.
    pub open spec fn with_record(&self, record: MemoryRecord) -> MemOccupied {
        match *self {
            MemOccupied::Register(index, _) => MemOccupied::Register(index, record),
            MemOccupied::HashMap(key, _) => MemOccupied::HashMap(key, record),
        }
    }

    /// The place is in the memory, and the record is held there.
    pub open spec fn describes(&self, memory: MemoryView) -> bool {
        &&& *self matches MemOccupied::Register(index, _) ==> index < memory.registers.len()
        &&& self.place().held(memory) == Some(self.record())
    }

    /// The record that is held at the place.
    pub fn get(&self) -> (r: &MemoryRecord)
        ensures
            *r == self.record(),
    {
        match self {
            Self::HashMap(_, record) => record,
            Self::Register(_, record) => record,
        }
    }

    /// The place of the record in the memory: what is written there is what the
    /// memory holds at the place afterwards.
    pub fn into_mut(self, map: &mut MemoryMap) -> (r: &mut MemoryRecord)
        requires
            self.describes(old(map)@),
        ensures
            *r == self.record(),
            final(map)@ == self.place().filled(old(map)@, *final(r)),
    {
        match self {
            MemOccupied::HashMap(key, _) => match table_get_mut(&mut map.memory, key) {
                Some(place) => place,
                None => unreached(),
            },
            MemOccupied::Register(index, _) => match &mut map.registers[index as usize] {
                Some(place) => place,
                None => unreached(),
            },
        }
    }

    /// Replaces the record at the place by what `f` makes of it.
    pub fn modify<F>(&mut self, map: &mut MemoryMap, f: F) where
        F: FnOnce(MemoryRecord) -> MemoryRecord,

        requires
            old(self).describes(old(map)@),
            call_requires(f, (old(self).record(),)),
        ensures
            call_ensures(f, (old(self).record(),), final(self).record()),
            *final(self) == old(self).with_record(final(self).record()),
            final(map)@ == old(self).place().filled(old(map)@, final(self).record()),
    {
        match *self {
            MemOccupied::Register(index, record) => {
                let changed = f(record);
                map.registers[index as usize] = Some(changed);
                *self = MemOccupied::Register(index, changed);
            },
            MemOccupied::HashMap(key, record) => {
                let changed = f(record);
                table_insert(&mut map.memory, key, changed);
                *self = MemOccupied::HashMap(key, changed);
            },
        }
    }
}

impl MemEntry {
    /// The place that was looked at.
    pub open spec fn place(&self) -> MemVacant {
        match *self {
            MemEntry::Occupied(occupied) => occupied.place(),
            MemEntry::Vacant(vacant) => vacant,
        }
    }

    /// The entry is what a look at the memory finds.
    pub open spec fn describes(&self, memory: MemoryView) -> bool {
        match *self {
            MemEntry::Occupied(occupied) => occupied.describes(memory),
            MemEntry::Vacant(vacant) => vacant.describes(memory),
        }
    }

    /// The place of the record in the memory; where there is no record, the one that
    /// `default` makes is put there first. What is written to the place is what the
    /// memory holds there afterwards.
    pub fn or_insert_with<F>(self, map: &mut MemoryMap, default: F) -> (r: &mut MemoryRecord) where
        F: FnOnce() -> MemoryRecord,

        requires
            self.describes(old(map)@),
            call_requires(default, ()),
        ensures
            self matches MemEntry::Occupied(occupied) ==> *r == occupied.record(),
            self is Vacant ==> call_ensures(default, (), *r),
            final(map)@ == self.place().filled(old(map)@, *final(r)),
    {
        match self {
            Self::Vacant(vacant) => vacant.insert(map, default()),
            Self::Occupied(occupied) => occupied.into_mut(map),
        }
    }

    /// The place of the record in the memory; where there is no record, `default` is
    /// put there first. What is written to the place is what the memory holds there
    /// afterwards.
    pub fn or_insert(self, map: &mut MemoryMap, default: MemoryRecord) -> (r: &mut MemoryRecord)
        requires
            self.describes(old(map)@),
        ensures
            self matches MemEntry::Occupied(occupied) ==> *r == occupied.record(),
            self is Vacant ==> *r == default,
            final(map)@ == self.place().filled(old(map)@, *final(r)),
    {
        match self {
            Self::Vacant(vacant) => vacant.insert(map, default),
            Self::Occupied(occupied) => occupied.into_mut(map),
        }
    }

    /// Where a record is held at the place, replaces it by what `f` makes of it.
    pub fn and_modify<F>(self, map: &mut MemoryMap, f: F) -> (r: MemEntry) where
        F: FnOnce(MemoryRecord) -> MemoryRecord,

        requires
            self.describes(old(map)@),
            self matches MemEntry::Occupied(occupied) ==> call_requires(f, (occupied.record(),)),
        ensures
            self is Vacant ==> r == self && final(map)@ == old(map)@,
            self matches MemEntry::Occupied(occupied) ==> r matches MemEntry::Occupied(changed)
                && call_ensures(f, (occupied.record(),), changed.record()) && changed
                == occupied.with_record(changed.record()) && final(map)@ == occupied.place().filled(
                old(map)@,
                changed.record(),
            ),
    {
        match self {
            Self::Vacant(vacant) => Self::Vacant(vacant),
            Self::Occupied(occupied) => {
                let mut occupied = occupied;
                occupied.modify(map, f);
                Self::Occupied(occupied)
            },
        }
    }
}

} // verus!
