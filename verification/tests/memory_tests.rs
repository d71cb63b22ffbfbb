use curves::memory::{MemEntry, MemOccupied, MemVacant, Memory, MemoryMap, MemoryRecord};

fn rec(value: u32) -> MemoryRecord {
    MemoryRecord { shard: 1, timestamp: 7, value }
}

#[test]
fn new_memory_holds_nothing() {
    let m = MemoryMap::new();
    assert!(m.registers.iter().all(|r| r.is_none()));
    assert_eq!(m.get(&0), None);
    assert_eq!(m.get(&31), None);
    assert_eq!(m.get(&0x10000), None);
    assert_eq!(m.get(&u32::MAX), None);
    let mut m = Memory::with_capacity(200_000);
    assert_eq!(m.drain(), vec![]);
}

#[test]
fn registers_are_kept_in_the_array() {
    let mut m = MemoryMap::new();
    assert_eq!(m.insert(5, rec(50)), None);
    assert_eq!(m.registers[5], Some(rec(50)));
    assert_eq!(m.get(&5), Some(&rec(50)));
    assert_eq!(m.insert(5, rec(51)), Some(rec(50)));
    assert_eq!(m.remove(&5), Some(rec(51)));
    assert_eq!(m.remove(&5), None);
    assert_eq!(m.registers[5], None);
}

#[test]
fn words_are_kept_in_the_table() {
    let mut m = MemoryMap::new();
    assert_eq!(m.insert(0x10000, rec(1)), None);
    assert_eq!(m.insert(0x10004, rec(2)), None);
    assert_eq!(m.get(&0x10000), Some(&rec(1)));
    assert_eq!(m.get(&0x10004), Some(&rec(2)));
    assert_eq!(m.get(&0x10008), None);
    assert_eq!(m.insert(0x10004, rec(3)), Some(rec(2)));
    assert_eq!(m.remove(&0x10000), Some(rec(1)));
    assert_eq!(m.get(&0x10000), None);
    assert_eq!(m.remove(&0x10000), None);
    assert!(m.registers.iter().all(|r| r.is_none()));
}

#[test]
fn the_four_addresses_of_a_word_share_it() {
    let mut m = MemoryMap::new();
    m.insert(0x10004, rec(9));
    assert_eq!(m.get(&0x10005), Some(&rec(9)));
    assert_eq!(m.get(&0x10007), Some(&rec(9)));
    assert_eq!(m.get(&0x10008), None);
    assert_eq!(m.remove(&0x10006), Some(rec(9)));
    assert_eq!(m.get(&0x10004), None);
}

#[test]
fn registers_and_words_do_not_meet() {
    let mut m = MemoryMap::new();
    // the word with translated address 3
    m.insert(0x1000c, rec(100));
    m.insert(3, rec(200));
    assert_eq!(m.get(&3), Some(&rec(200)));
    assert_eq!(m.get(&0x1000c), Some(&rec(100)));
    assert_eq!(m.remove(&3), Some(rec(200)));
    assert_eq!(m.get(&0x1000c), Some(&rec(100)));
}

#[test]
fn drain_gives_registers_first_then_words() {
    let mut m = MemoryMap::new();
    m.insert(0x10000, rec(1));
    m.insert(0x10010, rec(2));
    m.insert(30, rec(3));
    m.insert(2, rec(4));
    let drained = m.drain();
    assert_eq!(drained.len(), 4);
    assert_eq!(drained[0], (2, rec(4)));
    assert_eq!(drained[1], (30, rec(3)));
    // the words come under their translated addresses, in either order
    let mut words = drained[2..].to_vec();
    words.sort_by_key(|w| w.0);
    assert_eq!(words, vec![(0, rec(1)), (4, rec(2))]);
    assert_eq!(m.get(&2), None);
    assert_eq!(m.get(&0x10000), None);
    assert_eq!(m.drain(), vec![]);
}

#[test]
fn entry_tells_what_is_there() {
    let mut m = MemoryMap::new();
    assert_eq!(m.entry(4), MemEntry::Vacant(MemVacant::Register(4)));
    assert_eq!(m.entry(0x10008), MemEntry::Vacant(MemVacant::HashMap(2)));
    m.insert(4, rec(1));
    m.insert(0x10008, rec(2));
    assert_eq!(m.entry(4), MemEntry::Occupied(MemOccupied::Register(4, rec(1))));
    assert_eq!(m.entry(0x10008), MemEntry::Occupied(MemOccupied::HashMap(2, rec(2))));
    assert_eq!(MemOccupied::Register(4, rec(1)).get(), &rec(1));
}

#[test]
fn or_insert_keeps_what_is_there() {
    let mut m = MemoryMap::new();
    let e = m.entry(0x10000);
    assert_eq!(*e.or_insert(&mut m, rec(1)), rec(1));
    assert_eq!(m.get(&0x10000), Some(&rec(1)));
    let e = m.entry(0x10000);
    assert_eq!(*e.or_insert(&mut m, rec(2)), rec(1));
    assert_eq!(m.get(&0x10000), Some(&rec(1)));
    let e = m.entry(7);
    assert_eq!(*e.or_insert_with(&mut m, || rec(3)), rec(3));
    let e = m.entry(7);
    assert_eq!(*e.or_insert_with(&mut m, || rec(4)), rec(3));
    assert_eq!(m.registers[7], Some(rec(3)));
}

#[test]
fn and_modify_changes_only_what_is_there() {
    let mut m = MemoryMap::new();
    let bump = |r: MemoryRecord| MemoryRecord { value: r.value + 1, ..r };
    let e = m.entry(0x10000).and_modify(&mut m, bump);
    assert_eq!(e, MemEntry::Vacant(MemVacant::HashMap(0)));
    assert_eq!(m.get(&0x10000), None);
    m.insert(0x10000, rec(10));
    m.insert(1, rec(20));
    let e = m.entry(0x10000).and_modify(&mut m, bump);
    assert_eq!(e, MemEntry::Occupied(MemOccupied::HashMap(0, rec(11))));
    assert_eq!(m.get(&0x10000), Some(&rec(11)));
    let e = m.entry(1).and_modify(&mut m, bump);
    assert_eq!(*e.or_insert(&mut m, rec(0)), rec(21));
    assert_eq!(m.get(&1), Some(&rec(21)));
}

#[test]
fn vacant_insert_and_occupied_modify() {
    let mut m = MemoryMap::new();
    assert_eq!(*MemVacant::Register(9).insert(&mut m, rec(5)), rec(5));
    assert_eq!(*MemVacant::HashMap(12).insert(&mut m, rec(6)), rec(6));
    assert_eq!(m.get(&9), Some(&rec(5)));
    assert_eq!(m.get(&(0x10000 + 48)), Some(&rec(6)));
    let mut o = MemOccupied::HashMap(12, rec(6));
    o.modify(&mut m, |r| MemoryRecord { timestamp: 99, ..r });
    assert_eq!(o.get().timestamp, 99);
    assert_eq!(m.get(&(0x10000 + 48)).unwrap().timestamp, 99);
}

#[test]
fn into_mut_writes_through_to_the_memory() {
    let mut m = MemoryMap::new();
    m.insert(0x10000, rec(1));
    m.insert(3, rec(2));
    let place = MemOccupied::HashMap(0, rec(1)).into_mut(&mut m);
    assert_eq!(*place, rec(1));
    place.value = 40;
    assert_eq!(m.get(&0x10000), Some(&rec(40)));
    let place = MemOccupied::Register(3, rec(2)).into_mut(&mut m);
    place.value = 50;
    assert_eq!(m.registers[3], Some(rec(50)));
    assert_eq!(m.get(&0x10000), Some(&rec(40)));
}

#[test]
fn into_inner_hands_the_table_over() {
    let mut m = MemoryMap::new();
    m.insert(0x10000, rec(1));
    let registers = m.registers;
    let table = m.into_inner();
    let mut again = MemoryMap { registers, memory: table };
    assert_eq!(again.get(&0x10000), Some(&rec(1)));
    assert_eq!(again.drain(), vec![(0, rec(1))]);
}

#[test]
fn inserted_places_write_through_to_the_memory() {
    let mut m = MemoryMap::new();
    let place = MemVacant::HashMap(3).insert(&mut m, rec(1));
    place.value = 10;
    assert_eq!(m.get(&0x1000c), Some(&rec(10)));
    let place = MemVacant::Register(2).insert(&mut m, rec(2));
    place.timestamp = 70;
    assert_eq!(m.registers[2].unwrap().timestamp, 70);
    let e = m.entry(0x1000c);
    e.or_insert(&mut m, rec(0)).value += 1;
    assert_eq!(m.get(&0x1000c), Some(&rec(11)));
    let e = m.entry(0x20000);
    e.or_insert_with(&mut m, || rec(5)).value += 1;
    assert_eq!(m.get(&0x20000), Some(&rec(6)));
    let e = m.entry(2);
    e.or_insert(&mut m, rec(0)).value = 9;
    assert_eq!(m.registers[2].unwrap().value, 9);
}

#[test]
fn clone_and_default_hold_what_they_should() {
    let mut m = MemoryMap::default();
    assert_eq!(m.drain(), vec![]);
    m.insert(1, rec(1));
    m.insert(0x10000, rec(2));
    let mut copy = m.clone();
    copy.insert(1, rec(3));
    copy.remove(&0x10000);
    assert_eq!(m.get(&1), Some(&rec(1)));
    assert_eq!(m.get(&0x10000), Some(&rec(2)));
    assert_eq!(copy.get(&1), Some(&rec(3)));
    assert_eq!(copy.get(&0x10000), None);
    assert_eq!(m.clone().drain(), vec![(1, rec(1)), (0, rec(2))]);
}
