use nova::memory::{tuned_threshold, MemoryManager};
use nova::show::{int_digits, nat_digits, Piece};
use nova::value::{Object, ObjectType, VmData};

fn render(pieces: &[Piece]) -> String {
    let mut out = String::new();
    for p in pieces {
        match p {
            Piece::Text(s) => out.push_str(s),
            Piece::Float(bits) => out.push_str(&f64::from_bits(*bits).to_string()),
        }
    }
    out
}

fn count(mm: &MemoryManager, i: usize) -> Option<usize> {
    mm.heap[i].as_ref().map(|e| e.ref_count)
}

#[test]
fn allocation_reuses_the_last_freed_slot() {
    let mut mm = MemoryManager::new(1000);
    let a = mm.allocate(Object::list(vec![]));
    let b = mm.allocate(Object::list(vec![]));
    let c = mm.allocate(Object::list(vec![]));
    assert_eq!((a, b, c), (0, 1, 2));
    mm.dec(a);
    mm.dec(c);
    assert_eq!(mm.live_count(), 1);
    let d = mm.allocate(Object::tuple(vec![]));
    assert_eq!(d, 2);
    let e = mm.allocate(Object::tuple(vec![]));
    assert_eq!(e, 0);
}

#[test]
fn releasing_a_shared_entry_only_lowers_its_count() {
    let mut mm = MemoryManager::new(1000);
    let a = mm.allocate(Object::list(vec![]));
    mm.inc(a);
    assert_eq!(count(&mm, a), Some(2));
    mm.dec(a);
    assert_eq!(count(&mm, a), Some(1));
    mm.dec(a);
    assert_eq!(count(&mm, a), None);
}

#[test]
fn freeing_cascades_to_children() {
    let mut mm = MemoryManager::new(1000);
    let child = mm.allocate(Object::list(vec![VmData::Int(1)]));
    let parent = mm.allocate(Object::list(vec![VmData::Object(child)]));
    mm.dec(parent);
    assert_eq!(count(&mm, parent), None);
    assert_eq!(count(&mm, child), None);
    assert_eq!(mm.live_count(), 0);
}

#[test]
fn push_then_pop_restores_the_counts() {
    let mut mm = MemoryManager::new(1000);
    let a = mm.allocate(Object::list(vec![]));
    mm.push(VmData::Object(a));
    assert_eq!(count(&mm, a), Some(2));
    assert_eq!(mm.pop(), Some(VmData::Object(a)));
    assert_eq!(count(&mm, a), Some(1));
}

#[test]
fn collection_frees_unreachable_cycles_only() {
    let mut mm = MemoryManager::new(1000);
    // a cycle: x -> y -> x, not referenced from the stack
    let x = mm.allocate(Object::list(vec![]));
    let y = mm.allocate(Object::list(vec![VmData::Object(x)]));
    mm.heap[x].as_mut().unwrap().object.data.push(VmData::Object(y));
    // a reachable list
    let z = mm.allocate(Object::list(vec![VmData::Int(3)]));
    mm.stack.push(VmData::Object(z));
    mm.collect();
    assert!(mm.ref_from_heap(z).is_some());
    assert!(mm.ref_from_heap(x).is_none());
    assert!(mm.ref_from_heap(y).is_none());
}

#[test]
fn inhibited_allocation_never_collects() {
    let mut mm = MemoryManager::new(0);
    let dead = mm.allocate(Object::list(vec![]));
    mm.gc_inhibit();
    let next = mm.allocate(Object::list(vec![]));
    assert!(mm.ref_from_heap(dead).is_some());
    assert_eq!(next, 1);
    mm.gc_release();
    assert_eq!(mm.gc_inhibited, 0);
}

#[test]
fn allocation_collects_when_due() {
    let mut mm = MemoryManager::new(1);
    let dead = mm.allocate(Object::list(vec![]));
    assert_eq!(dead, 0);
    // one live entry, threshold 1: this allocation collects the unreachable one first
    let next = mm.allocate(Object::list(vec![]));
    assert_eq!(next, 0);
    assert_eq!(mm.heap.len(), 1);
}

#[test]
fn threshold_tuning() {
    assert_eq!(tuned_threshold(10_000, 5), 20_000);
    assert_eq!(tuned_threshold(900_000, 5), 1_000_000);
    assert_eq!(tuned_threshold(10_000, 100), 5_000);
    assert_eq!(tuned_threshold(40_000, 100), 20_000);
    assert_eq!(tuned_threshold(10_000, 30), 10_000);
}

#[test]
fn printing_objects() {
    let mut mm = MemoryManager::new(1000);
    let s = mm.allocate(Object::string("hi".to_string()));
    let l = mm.allocate(Object::list(vec![VmData::Int(1), VmData::Object(s), VmData::Bool(false), VmData::Nil, VmData::Char('c')]));
    assert_eq!(render(&mm.print_heap_object(l, 0)), "[1, hi, false, None, c]");
    let t = mm.allocate(Object::tuple(vec![VmData::Float(1.5f64.to_bits()), VmData::Object(999)]));
    assert_eq!(render(&mm.print_heap_object(t, 0)), "(1.5, Invalid Heap Object)");
    let e = mm.allocate(Object::enum_object("Shape".to_string(), -2, vec![VmData::Int(4)]));
    assert_eq!(render(&mm.print_heap_object(e, 0)), "Enum(Shape: -2, [4])");
    let c = mm.allocate(Object::closure(17, vec![VmData::Function(3)]));
    assert_eq!(render(&mm.print_heap_object(c, 0)), "<Closure: 17, env: [Function(3)]>");
    assert_eq!(render(&mm.print_heap_object(12345, 0)), "None");
}

#[test]
fn printing_stops_below_depth_three() {
    let mut mm = MemoryManager::new(1000);
    let mut inner = mm.allocate(Object::list(vec![VmData::Int(7)]));
    for _ in 0..5 {
        inner = mm.allocate(Object::list(vec![VmData::Object(inner)]));
    }
    assert_eq!(render(&mm.print_heap_object(inner, 0)), "[[[[...]]]]");
}

#[test]
fn deep_equality_is_symmetric_and_structural() {
    let mut mm = MemoryManager::new(1000);
    let a = mm.allocate(Object::list(vec![VmData::Int(1), VmData::Int(2)]));
    let b = mm.allocate(Object::list(vec![VmData::Int(1), VmData::Int(2)]));
    let c = mm.allocate(Object::tuple(vec![VmData::Int(1), VmData::Int(2)]));
    let (va, vb, vc) = (VmData::Object(a), VmData::Object(b), VmData::Object(c));
    assert!(mm.deep_equal(&va, &vb, 10));
    assert!(mm.deep_equal(&vb, &va, 10));
    assert!(!mm.deep_equal(&va, &vc, 10));
    assert!(!mm.deep_equal(&vc, &va, 10));
    let nan = VmData::Float(f64::NAN.to_bits());
    assert!(!mm.deep_equal(&nan, &nan, 10));
    assert!(mm.deep_equal(&VmData::Nil, &VmData::Nil, 0));
}

#[test]
fn deep_clone_copies_nested_objects() {
    let mut mm = MemoryManager::new(1000);
    let inner = mm.allocate(Object::list(vec![VmData::Int(1)]));
    let outer = mm.allocate(Object::list(vec![VmData::Object(inner), VmData::Int(2)]));
    let copy = mm.deep_clone_heap(outer);
    assert_ne!(copy, outer);
    let data = mm.ref_from_heap(copy).unwrap().data.clone();
    assert_eq!(data[1], VmData::Int(2));
    match data[0] {
        VmData::Object(i) => {
            assert_ne!(i, inner);
            assert_eq!(mm.ref_from_heap(i).unwrap().data, vec![VmData::Int(1)]);
        }
        _ => panic!("expected an object"),
    }
    assert_eq!(mm.deep_clone_heap(4242), 0);
}

#[test]
fn struct_fields_and_tables() {
    let mut o = Object::new(ObjectType::Struct("P".to_string()), vec![]);
    o.insert("a".to_string(), 5);
    o.insert("b".to_string(), 6);
    o.insert("a".to_string(), 7);
    assert_eq!(o.get("a"), Some(VmData::Object(7)));
    assert_eq!(o.get("b"), Some(VmData::Object(6)));
    assert_eq!(o.get("c"), None);
    assert_eq!(o.len(), 3);
    assert_eq!(o.table.len(), 2);
    let fields = o.as_struct().unwrap();
    assert_eq!(fields.len(), 2);
    assert!(Object::list(vec![]).as_struct().is_none());
}

#[test]
fn object_accessors() {
    let s = Object::string("abc".to_string());
    assert_eq!(s.as_string(), Some("abc".to_string()));
    assert!(s.as_list().is_none());
    let l = Object::list(vec![VmData::Int(1)]);
    assert_eq!(l.as_list(), Some(vec![VmData::Int(1)]));
    let c = Object::closure(9, vec![VmData::Int(2)]);
    assert_eq!(c.as_closure(), Some((9, vec![VmData::Int(2)])));
    let e = Object::enum_object("E".to_string(), 1, vec![]);
    assert_eq!(e.as_enum(), Some(("E".to_string(), 1, vec![])));
    assert!(ObjectType::Tuple.same_as(&ObjectType::Tuple));
    assert!(!ObjectType::Struct("A".to_string()).same_as(&ObjectType::Struct("B".to_string())));
}

#[test]
fn decimal_digits() {
    assert_eq!(nat_digits(0), "0");
    assert_eq!(nat_digits(1234567890), "1234567890");
    assert_eq!(int_digits(-42), "-42");
    assert_eq!(int_digits(i64::MIN), "-9223372036854775808");
    assert_eq!(int_digits(i64::MAX), "9223372036854775807");
}

#[test]
fn value_display() {
    assert_eq!(render(&VmData::Function(3).show()), "Function(3)");
    assert_eq!(render(&VmData::StackAddress(8).show()), "StackAddress(8)");
    assert_eq!(render(&VmData::Object(2).show()), "Object(2)");
    assert_eq!(render(&VmData::Nil.show()), "None");
    assert_eq!(render(&VmData::Bool(true).show()), "true");
}

#[test]
fn optimizer_starts_empty() {
    assert_eq!(nova::optimizer::new().optimizations, 0);
}

#[test]
fn state_default_and_clone() {
    let mut s = nova::state::State::default();
    assert_eq!(s.memory.base_threshold, 10_000);
    assert!(s.program.is_empty() && s.callstack.is_empty() && s.window.is_empty());
    s.program = vec![1, 2, 3];
    s.current_instruction = 2;
    s.memory.stack.push(VmData::Int(7));
    let c = s.clone();
    assert_eq!(c.program, vec![1, 2, 3]);
    assert_eq!(c.current_instruction, 2);
    assert_eq!(c.memory.stack, vec![VmData::Int(7)]);
}

#[test]
fn deep_clone_copies_a_cycle_as_a_cycle() {
    let mut mm = MemoryManager::new(1000);
    let a = mm.allocate(Object::list(vec![VmData::Int(7)]));
    mm.heap[a].as_mut().unwrap().object.data.push(VmData::Object(a));
    let copy = mm.deep_clone_heap(a);
    assert_ne!(copy, a);
    let data = mm.ref_from_heap(copy).unwrap().data.clone();
    assert_eq!(data, vec![VmData::Int(7), VmData::Object(copy)]);
    assert_eq!(mm.ref_from_heap(a).unwrap().data, vec![VmData::Int(7), VmData::Object(a)]);
    assert_eq!(mm.gc_inhibited, 0);
}

#[test]
fn deep_clone_keeps_shared_children_shared() {
    let mut mm = MemoryManager::new(1000);
    let child = mm.allocate(Object::list(vec![VmData::Int(1)]));
    let parent = mm.allocate(Object::tuple(vec![VmData::Object(child), VmData::Object(child)]));
    let copy = mm.deep_clone_heap(parent);
    let data = mm.ref_from_heap(copy).unwrap().data.clone();
    assert_eq!(data[0], data[1]);
    assert_ne!(data[0], VmData::Object(child));
    assert_eq!(mm.live_count(), 4);
}

#[test]
fn clone_top_copies_an_object_held_once() {
    let mut mm = MemoryManager::new(1000);
    mm.push_list(vec![]);
    mm.clone_top();
    assert_eq!(mm.stack.len(), 1);
    match mm.stack[0] {
        VmData::Object(r) => {
            assert_eq!(mm.ref_from_heap(r).unwrap().data, vec![]);
            assert_eq!(mm.heap[r].as_ref().unwrap().ref_count, 1);
        }
        other => panic!("expected an object, got {:?}", other),
    }
    assert_eq!(mm.live_count(), 1);
}
