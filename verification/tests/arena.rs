use pochita::DroplessArena;

#[derive(Clone, Debug, PartialEq, Eq)]
struct NonCopy(&'static str);

#[derive(Clone, Copy)]
struct Big([u64; 1024]);

#[test]
fn alloc_value() {
    let mut arena = DroplessArena::new();

    let h = arena.alloc_value("Pochita");
    assert_eq!(*arena.get(&h), "Pochita");
}

#[test]
fn alloc_slice_copy() {
    let mut arena = DroplessArena::new();

    let h = arena.alloc_slice_copy(b"Pochita");
    assert_eq!(arena.copy_to_vec(&h), b"Pochita".to_vec());
}

#[test]
fn alloc_slice_clone() {
    let mut arena = DroplessArena::new();

    let h = arena.alloc_slice_clone(&[NonCopy("Pochita"), NonCopy("Makima")]);
    assert_eq!(h.len, 2);
    assert_eq!(*arena.slice_elem(&h, 0), NonCopy("Pochita"));
    assert_eq!(*arena.slice_elem(&h, 1), NonCopy("Makima"));
}

#[test]
fn alloc_slice_str() {
    let mut arena = DroplessArena::new();

    let h1 = arena.alloc_str("Makima");
    assert_eq!(arena.copy_to_vec(&h1), "Makima".as_bytes().to_vec());
    let h2 = arena.alloc_str("Pochita");
    assert_eq!(arena.copy_to_vec(&h2), "Pochita".as_bytes().to_vec());
}

#[test]
fn first_block_sized_by_page_for_four_byte_elements() {
    let mut arena = DroplessArena::<u32>::new();

    let h = arena.alloc_value(5u32);
    assert_eq!(arena.chunk_count(), 1);
    assert_eq!(arena.chunk_capacity(0), 4096 / 4);
    assert_eq!(arena.chunk_used(0), 1);
    assert_eq!(h.chunk, 0);
    assert_eq!(h.index, 0);
}

#[test]
fn independent_strings_stay_disjoint_and_intact() {
    let mut arena = DroplessArena::new();

    let h1 = arena.alloc_str("Pochita");
    let h2 = arena.alloc_str("Makima");
    assert!(
        h1.chunk != h2.chunk || h1.index + h1.len <= h2.index || h2.index + h2.len <= h1.index
    );
    assert_eq!(arena.copy_to_vec(&h1), "Pochita".as_bytes().to_vec());
    assert_eq!(arena.copy_to_vec(&h2), "Makima".as_bytes().to_vec());
}

#[test]
fn empty_slice_copy_triggers_no_growth() {
    let mut arena = DroplessArena::<u8>::new();

    let h = arena.alloc_slice_copy(&[]);
    assert_eq!(h.len, 0);
    assert_eq!(arena.chunk_count(), 0);
    assert_eq!(arena.copy_to_vec(&h), Vec::<u8>::new());

    arena.alloc_value(9u8);
    let before = arena.chunk_count();
    let h2 = arena.alloc_slice_copy(&[]);
    assert_eq!(h2.len, 0);
    assert_eq!(arena.chunk_count(), before);
}

#[test]
fn byte_allocations_double_the_block_at_the_boundary() {
    let mut arena = DroplessArena::<u8>::new();

    for i in 0..4096u32 {
        arena.alloc_value(i as u8);
        assert_eq!(arena.chunk_count(), 1);
    }
    assert_eq!(arena.chunk_used(0), 4096);

    arena.alloc_value(7u8);
    assert_eq!(arena.chunk_count(), 2);
    assert_eq!(arena.chunk_capacity(1), 2 * 4096);
    assert_eq!(arena.chunk_used(1), 1);
}

#[test]
fn block_capacities_follow_the_doubling_formula_up_to_the_cap() {
    let mut arena = DroplessArena::<u8>::new();

    let mut expected: Vec<usize> = Vec::new();
    let mut cap: usize = 4096;
    for _ in 0..11 {
        expected.push(cap);
        let half_huge: usize = 2 * 1024 * 1024 / 2;
        let low = if cap < half_huge { cap } else { half_huge };
        cap = low * 2;
    }

    for i in 0..11 {
        arena.reserve(0);
        assert_eq!(arena.chunk_capacity(i), expected[i]);
    }
    assert_eq!(arena.chunk_capacity(9), 2 * 1024 * 1024);
    assert_eq!(arena.chunk_capacity(10), 2 * 1024 * 1024);
}

#[test]
fn oversized_request_gets_its_own_block() {
    let mut arena = DroplessArena::<u32>::new();

    arena.ensure_capacity(5000);
    assert_eq!(arena.chunk_count(), 1);
    assert_eq!(arena.chunk_capacity(0), 5000);
}

#[test]
fn growth_floors_at_one_element_for_huge_element_types() {
    let mut arena = DroplessArena::<Big>::new();

    arena.reserve(0);
    assert_eq!(arena.chunk_capacity(0), 1);
    arena.reserve(0);
    assert_eq!(arena.chunk_capacity(1), 2);
}

#[test]
fn can_allocate_reflects_the_window() {
    let arena = DroplessArena::<i32>::new();
    assert_eq!(arena.can_allocate(10), false);

    let mut arena = arena;
    arena.ensure_capacity(10);
    assert_eq!(arena.can_allocate(10), true);
    assert_eq!(arena.can_allocate(0), true);
}

#[test]
fn ensure_capacity_is_idempotent_when_room_exists() {
    let mut arena = DroplessArena::<i32>::new();

    arena.ensure_capacity(10);
    let count = arena.chunk_count();
    arena.ensure_capacity(10);
    assert_eq!(arena.chunk_count(), count);
}

#[test]
fn default_is_an_empty_arena() {
    let arena = DroplessArena::<u8>::default();
    assert_eq!(arena.chunk_count(), 0);
    assert_eq!(arena.can_allocate(1), false);
}

#[test]
fn alloc_str_round_trips_multibyte_utf8() {
    let mut arena = DroplessArena::new();

    let src = "héllo – ≤≥ 🦀";
    let h = arena.alloc_str(src);
    assert_eq!(h.len, src.len());
    assert_eq!(arena.copy_to_vec(&h), src.as_bytes().to_vec());
}

#[test]
fn value_survives_many_later_allocations() {
    let mut arena = DroplessArena::<u64>::new();

    let h = arena.alloc_value(42u64);
    for i in 0..10000u64 {
        arena.alloc_value(i);
    }
    assert_eq!(*arena.get(&h), 42u64);
}

#[test]
fn slice_survives_growth() {
    let mut arena = DroplessArena::<u8>::new();

    let h = arena.alloc_slice_copy(b"Makima");
    let filler = vec![0u8; 8192];
    arena.alloc_slice_copy(&filler);
    assert_eq!(arena.copy_to_vec(&h), b"Makima".to_vec());
}

#[test]
fn bulk_allocations_are_disjoint() {
    let mut arena = DroplessArena::<u8>::new();

    let h1 = arena.alloc_slice_copy(&[1u8, 2, 3]);
    let h2 = arena.alloc_slice_copy(&[4u8, 5]);
    let h3 = arena.alloc_slice_copy(&vec![6u8; 5000]);
    for (a, b) in [(h1, h2), (h1, h3), (h2, h3)] {
        assert!(a.chunk != b.chunk || a.index + a.len <= b.index || b.index + b.len <= a.index);
    }
    assert_eq!(arena.copy_to_vec(&h1), vec![1u8, 2, 3]);
    assert_eq!(arena.copy_to_vec(&h2), vec![4u8, 5]);
}

#[test]
fn small_reserve_still_gets_a_full_baseline_block() {
    let mut arena = DroplessArena::<i32>::new();

    arena.reserve(10);
    assert_eq!(arena.chunk_count(), 1);
    assert_eq!(arena.chunk_capacity(0), 1024);
}
