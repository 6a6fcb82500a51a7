use syncpool::bits::{check_len, cpu_relax, enter, exit, in_state, out_state};

#[test]
fn access_pass() {
    let test1 = 0b0101010001010100;
    assert_eq!(enter(test1, false), Ok(0));
    assert_eq!(enter(test1, true), Ok(1));

    let test2 = 0b0101010001010101;
    assert_eq!(enter(test2, false), Ok(4));
    assert_eq!(enter(test2, true), Ok(0));

    let test3 = 0b0101010001010111;
    assert_eq!(enter(test3, false), Ok(4));
    assert_eq!(enter(test3, true), Ok(1));

    let test4 = 0b0101010001011011;
    assert_eq!(enter(test4, false), Ok(4));
    assert_eq!(enter(test4, true), Ok(2));
}

#[test]
fn access_deny() {
    let test1 = 0b0010000000000000;
    assert_eq!(enter(test1, false), Ok(0));
    assert_eq!(enter(test1, true), Err(()));

    let test2 = 0b0111010101010111;
    assert_eq!(enter(test2, false), Err(()));
    assert_eq!(enter(test2, true), Ok(1));
}

/// The state word once the slot that `enter` names is locked.
fn access(src: u16, get: bool) -> Result<u16, ()> {
    enter(src, get).and_then(|pos| in_state(src, 2 * pos))
}

#[test]
fn utils_access_pass() {
    let test1 = 0b0101010001010100;
    assert_eq!(access(test1, false), Ok(0b0101010001010110));
    assert_eq!(access(test1, true), Ok(0b0101010001011100));

    let test2 = 0b0101010001010101;
    assert_eq!(access(test2, false), Ok(0b0101011001010101));
    assert_eq!(access(test2, true), Ok(0b0101010001010111));

    let test3 = 0b0101010001010111;
    assert_eq!(access(test3, false), Ok(0b0101011001010111));
    assert_eq!(access(test3, true), Ok(0b0101010001011111));

    let test4 = 0b0101010001011011;
    assert_eq!(access(test4, false), Ok(0b0101011001011011));
    assert_eq!(access(test4, true), Ok(0b0101010001111011));
}

#[test]
fn utils_access_deny() {
    let test1 = 0b0010000000000000;
    assert_eq!(access(test1, false), Ok(0b0010000000000010));
    assert_eq!(access(test1, true), Err(()));

    let test2 = 0b0111010101010111;
    assert_eq!(access(test2, false), Err(()));
    assert_eq!(access(test2, true), Ok(0b0111010101011111));
}

#[test]
fn enter_on_empty_and_full_words() {
    assert_eq!(enter(0, true), Err(()));
    assert_eq!(enter(0, false), Ok(0));
    assert_eq!(enter(0b0101_0101_0101_0101, false), Err(()));
    assert_eq!(enter(0b0101_0101_0101_0101, true), Ok(0));
    // the last slot alone
    assert_eq!(enter(0b0100_0000_0000_0000, true), Ok(7));
    assert_eq!(enter(0b0001_0101_0101_0101, false), Ok(7));
    // every slot owned
    assert_eq!(enter(0b1010_1010_1010_1010, false), Err(()));
    assert_eq!(enter(0b1111_1111_1111_1111, true), Err(()));
}

#[test]
fn enter_agrees_with_a_plain_search() {
    for word in 0..=u16::MAX {
        for get in [true, false] {
            let mut expected = Err(());
            for pos in 0..8u16 {
                let present = word >> (2 * pos) & 1 == 1;
                let locked = word >> (2 * pos + 1) & 1 == 1;
                if !locked && present == get {
                    expected = Ok(pos);
                    break;
                }
            }
            assert_eq!(enter(word, get), expected);
        }
    }
}

#[test]
fn check_len_counts_presence_bits() {
    assert_eq!(check_len(0), 0);
    assert_eq!(check_len(0b0101_0101_0101_0101), 8);
    assert_eq!(check_len(0b1010_1010_1010_1010), 0);
    assert_eq!(check_len(0b0101_0100_0101_0100), 6);
    assert_eq!(check_len(0b0111_0101_0101_0111), 8);
    assert_eq!(check_len(0b0100_0000_0000_0001), 2);
    for word in 0..=u16::MAX {
        assert_eq!(check_len(word), (word & 0b0101_0101_0101_0101).count_ones() as usize);
    }
}

#[test]
fn in_state_marks_the_lock_bit_once() {
    assert_eq!(in_state(0b0001, 0), Ok(0b0011));
    assert_eq!(in_state(0b0011, 0), Err(()));
    assert_eq!(in_state(0, 14), Ok(0b1000_0000_0000_0000));
    assert_eq!(in_state(0b1000_0000_0000_0000, 14), Err(()));
}

#[test]
fn out_state_clears_lock_and_flips_presence() {
    assert_eq!(out_state(0b0011, 0), Ok(0b0000));
    assert_eq!(out_state(0b0010, 0), Ok(0b0001));
    assert_eq!(out_state(0b0001, 0), Err(()));
    assert_eq!(out_state(0b1000_0000_0000_0000, 14), Ok(0b0100_0000_0000_0000));
}

#[test]
fn exit_leaves_the_slot() {
    assert_eq!(exit(0b0000_1100, 1), Ok(0));
    assert_eq!(exit(0b0000_1000, 1), Ok(0b0000_0100));
    assert_eq!(exit(0b0000_0100, 1), Err(()));
    assert_eq!(exit(0b1100_0000_0000_0011, 7), Ok(0b0000_0000_0000_0011));
}

#[test]
fn a_round_clears_the_lock_bit() {
    for word in [0b0101_0100_0101_0100u16, 0b0101_0100_0101_0101, 0b0010_0000_0000_0000, 0] {
        for get in [true, false] {
            if let Ok(pos) = enter(word, get) {
                let held = in_state(word, 2 * pos).unwrap();
                let after = exit(held, pos).unwrap();
                assert_eq!(after >> (2 * pos + 1) & 1, 0);
                assert_eq!(after >> (2 * pos) & 1 == 1, !get);
                assert_eq!(after ^ word, 1 << (2 * pos));
            }
        }
    }
}

#[test]
fn cpu_relax_returns() {
    cpu_relax(0);
    cpu_relax(4);
}
