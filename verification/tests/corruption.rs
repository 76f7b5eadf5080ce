use craturn::eater::{corrupt_buffer, select_target};
use craturn::registry::{alloc_slot, on_alloc, Registry};
use craturn::{Allocator, Hunger};

fn patterned(len: usize) -> Vec<u8> {
    let mut v = Vec::with_capacity(len);
    for i in 0..len {
        v.push((i % 251) as u8);
    }
    v
}

fn checksum(buf: &[u8]) -> u64 {
    let mut sum: u64 = 0;
    for &b in buf {
        sum = sum.wrapping_mul(31).wrapping_add(b as u64);
    }
    sum
}

#[test]
fn shape_table_exact() {
    let full = Allocator { hunger: Hunger::Full };
    assert_eq!(full.corruption_shape(0), (0, 0));
    assert_eq!(full.corruption_shape(7), (0, 0));

    let hungry = Allocator { hunger: Hunger::Hungry };
    assert_eq!(hungry.corruption_shape(0), (1, 1));
    assert_eq!(hungry.corruption_shape(1), (1, 2));
    assert_eq!(hungry.corruption_shape(2), (1, 1));
    assert_eq!(hungry.corruption_shape(3), (1, 2));

    let starving = Allocator { hunger: Hunger::Starving };
    assert_eq!(starving.corruption_shape(5), (2, 0b11));

    let devouring = Allocator { hunger: Hunger::Devouring };
    assert_eq!(devouring.corruption_shape(5), (4, 0b111));

    let insatiable = Allocator { hunger: Hunger::Insatiable };
    assert_eq!(insatiable.corruption_shape(5), (8, 0xFF));
}

#[test]
fn delay_table_exact() {
    let cases = [
        (Hunger::Full, u64::MAX, u64::MAX),
        (Hunger::Hungry, 1000, 1000),
        (Hunger::Starving, 0, 200),
        (Hunger::Devouring, 0, 50),
        (Hunger::Insatiable, 0, 10),
    ];
    for &(hunger, first, recurring) in &cases {
        let a = Allocator { hunger };
        assert_eq!(a.first_bite_offset(), first);
        assert_eq!(a.bite_offset(), recurring);
    }
}

#[test]
fn full_profile_never_changes_a_byte() {
    let a = Allocator { hunger: Hunger::Full };
    let original = patterned(80_000);
    let expected = checksum(&original);
    let mut buf = original.clone();
    for n in 0..300 {
        a.corruption_event(n, &mut buf);
        assert_eq!(checksum(&buf), expected);
    }
    assert_eq!(buf, original);
}

#[test]
fn insatiable_bites_the_second_half() {
    let a = Allocator { hunger: Hunger::Insatiable };
    let original = patterned(128);
    let mut buf = original.clone();
    a.corruption_event(0, &mut buf);
    let base = (128 / 16) * 8;
    // The byte at the rounded midpoint is xored with 0xFF.
    assert_eq!(buf[base], original[base] ^ 0xFF);
    // Some byte inside [base, len) changed; none outside it did.
    assert!(buf[base..].iter().zip(&original[base..]).any(|(a, b)| a != b));
    assert_eq!(&buf[..base], &original[..base]);
    assert_eq!(buf.len(), original.len());
}

#[test]
fn corruption_never_passes_the_recorded_end() {
    // 100 bytes: the bitten stretch is [48, 96); the trailing four
    // bytes act as a guard and must survive sustained pressure.
    let a = Allocator { hunger: Hunger::Insatiable };
    let original = patterned(100);
    let mut buf = original.clone();
    for n in 0..100 {
        a.corruption_event(n, &mut buf);
        assert_eq!(buf.len(), 100);
        assert_eq!(&buf[96..], &original[96..]);
        assert_eq!(&buf[..48], &original[..48]);
        // Inside the stretch every whole word is xored each time.
        let flipped = n % 2 == 0;
        for i in (48..96).step_by(8) {
            let want = if flipped { original[i] ^ 0xFF } else { original[i] };
            assert_eq!(buf[i], want);
        }
    }
}

#[test]
fn checksum_scenario_insatiable_diverges_full_does_not() {
    let original = patterned(80_000);
    let expected = checksum(&original);

    let insatiable = Allocator { hunger: Hunger::Insatiable };
    let mut buf = original.clone();
    let mut diverged = false;
    for n in 0..300 {
        insatiable.corruption_event(n, &mut buf);
        if checksum(&buf) != expected {
            diverged = true;
            break;
        }
    }
    assert!(diverged);

    let full = Allocator { hunger: Hunger::Full };
    let mut buf = original.clone();
    for n in 0..300 {
        full.corruption_event(n, &mut buf);
        assert_eq!(checksum(&buf), expected);
    }
}

#[test]
fn hungry_mask_follows_event_parity() {
    let a = Allocator { hunger: Hunger::Hungry };
    // 64 bytes: one word is bitten, at the rounded midpoint 32.
    let mut even = vec![0u8; 64];
    a.corruption_event(2, &mut even);
    assert_eq!(even[32], 1);
    assert!(even[..32].iter().all(|&b| b == 0));
    assert!(even[33..].iter().all(|&b| b == 0));

    let mut odd = vec![0u8; 64];
    a.corruption_event(3, &mut odd);
    assert_eq!(odd[32], 2);
    assert!(odd[..32].iter().all(|&b| b == 0));
    assert!(odd[33..].iter().all(|&b| b == 0));
}

#[test]
fn mask_is_applied_per_word_little_endian() {
    // Starving flips the low two bits of each bitten word: with two
    // words bitten, bytes 16 and 24 of a 32-byte buffer change, the
    // other bytes stay.
    let mut buf = vec![0u8; 32];
    corrupt_buffer(&mut buf, 2, 0b11);
    assert_eq!(buf[16], 0b11);
    assert_eq!(buf[24], 0b11);
    let untouched: Vec<usize> = (0..32).filter(|&i| i != 16 && i != 24).collect();
    for i in untouched {
        assert_eq!(buf[i], 0, "byte {} changed", i);
    }
}

#[test]
fn short_tail_words_are_skipped() {
    // 20 bytes: base is 8, only one whole word fits before the end,
    // so a request for eight words writes just [8, 16).
    let original = patterned(20);
    let mut buf = original.clone();
    corrupt_buffer(&mut buf, 8, 0xFF);
    assert_eq!(&buf[..8], &original[..8]);
    for i in 8..16 {
        assert_eq!(buf[i], original[i] ^ if i == 8 { 0xFF } else { 0 });
    }
    assert_eq!(&buf[16..], &original[16..]);
}

#[test]
fn tiny_buffers_are_untouched() {
    let mut empty: Vec<u8> = Vec::new();
    corrupt_buffer(&mut empty, 8, 0xFF);
    assert!(empty.is_empty());

    let original = patterned(7);
    let mut buf = original.clone();
    corrupt_buffer(&mut buf, 8, 0xFF);
    assert_eq!(buf, original);
}

#[test]
fn select_target_rotates_and_skips() {
    let reg = Registry::with_capacity(4);
    assert_eq!(select_target(&reg, 0), None);

    let mut reg = Registry::with_capacity(4);
    assert_eq!(on_alloc(&mut reg, 0x100, 64), Some(0));
    assert_eq!(on_alloc(&mut reg, 0x200, 96), Some(1));
    assert_eq!(select_target(&reg, 0), Some((0, 0x100, 64)));
    assert_eq!(select_target(&reg, 1), Some((1, 0x200, 96)));
    assert_eq!(select_target(&reg, 2), Some((0, 0x100, 64)));
}

#[test]
fn select_target_skips_mid_release_slots() {
    // A slot acquired but not yet recorded reads as zero and is skipped.
    let mut reg = Registry::with_capacity(4);
    assert_eq!(alloc_slot(&mut reg), Some(0));
    assert_eq!(reg.active_len(), 1);
    assert_eq!(select_target(&reg, 0), None);
}
