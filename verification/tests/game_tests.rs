use casino_core::cell::Cell;
use casino_core::gc::GcState;
use casino_core::grid::{compute_delta, GameGrid, PlacementEvent, ServerMessage};
use casino_core::audit::{AuditEventType, AuditLog};
use casino_core::errors::ErrorKind;
use casino_core::plinko::{ball_path, fallback_seed, payout_for_position};
use sha2::Digest;

#[test]
fn test_ball_path_bits() {
    let (path, pos) = ball_path(&vec![0b1011_0101]);
    assert_eq!(path, vec![true, false, true, false, true, true, false, true]);
    assert_eq!(pos, 5);

    let (path, pos) = ball_path(&vec![0]);
    assert!(path.iter().all(|&d| !d));
    assert_eq!(pos, 0);

    let (_, pos) = ball_path(&vec![0xFF]);
    assert_eq!(pos, 8);
}

#[test]
fn test_plinko_payout_table() {
    // centre position: 1_000_000 * 25_344 / (100 * 70)
    assert_eq!(payout_for_position(1_000_000, 4).unwrap(), 3_620_571);
    // edge positions: 253.44x
    assert_eq!(payout_for_position(1_000_000, 0).unwrap(), 253_440_000);
    assert_eq!(payout_for_position(1_000_000, 8).unwrap(), 253_440_000);
    // symmetric pairs
    assert_eq!(
        payout_for_position(777_777, 1).unwrap(),
        payout_for_position(777_777, 7).unwrap()
    );
    assert_eq!(
        payout_for_position(777_777, 3).unwrap(),
        payout_for_position(777_777, 5).unwrap()
    );
    assert_eq!(payout_for_position(1, 9).unwrap_err(), ErrorKind::AboveMaximum);
    assert_eq!(payout_for_position(1, 100).unwrap_err(), ErrorKind::AboveMaximum);
    // a stake whose edge payout cannot fit is refused, not wrapped
    assert_eq!(payout_for_position(u64::MAX, 0).unwrap_err(), ErrorKind::Overflow);
}

#[test]
fn test_fallback_seed_digests() {
    let caller = vec![1u8, 2, 3, 4];
    let seed = fallback_seed(7, &caller);
    assert_eq!(seed.len(), 32);

    // deterministic on the same inputs, different on different inputs
    assert_eq!(seed, fallback_seed(7, &caller));
    assert_ne!(seed, fallback_seed(8, &caller));
    assert_ne!(seed, fallback_seed(7, &vec![9u8]));

    // and it really is the digest of time-bytes followed by the caller
    let mut input = 7u64.to_be_bytes().to_vec();
    input.extend_from_slice(&caller);
    let expected = sha2::Sha256::digest(&input).to_vec();
    assert_eq!(seed, expected);
}

#[test]
fn test_gc_delta_cycle() {
    let mut gc = GcState::new();

    // nothing runs before the interval has passed
    assert!(gc.begin_gc(100).is_none());

    // the first sweep sees every quadrant active (assumed at boot)
    let first = gc.begin_gc(300_000_000_000).unwrap();
    assert_eq!(first.len(), 16);
    assert!(first.iter().all(|&s| !s));

    // a quiet cycle: births equal deaths in quadrant 0, imbalance in 5
    gc.record_birth(10, 10);
    gc.record_death(20, 20);
    gc.record_birth_idx(512 * 130 + 130); // quadrant 5: one birth, no death
    gc.mark_quadrant_active(511, 511); // fresh placement protects quadrant 15
    gc.end_generation_delta_check();

    let second = gc.begin_gc(600_000_000_000).unwrap();
    assert!(second[0]); // balanced: stale
    assert!(!second[5]); // imbalanced: active
    assert!(!second[15]); // marked active by a placement

    gc.note_cells_killed(3);
    let (runs, killed, flags) = gc.get_gc_stats();
    assert_eq!(runs, 2);
    assert_eq!(killed, 3);
    assert_eq!(flags.len(), 16);

    gc.reset_gc_state();
    let (runs, killed, _) = gc.get_gc_stats();
    assert_eq!(runs, 0);
    assert_eq!(killed, 0);
}

#[test]
fn test_apply_placement_and_delta() {
    let mut grid = GameGrid::default_size();
    let before = grid.cells.clone();

    let event = PlacementEvent {
        event_id: 9,
        timestamp_ns: 1,
        player: 42,
        player_num: 3,
        cells: vec![(5, 5), (6, 5)],
        balance_after: 100,
    };
    grid.apply_placement(&event);
    assert_eq!(grid.last_event_id, 9);
    assert_eq!(grid.alive_count(), 2);

    let placed = grid.cells[5 * 512 + 5];
    assert!(placed.alive());
    assert_eq!(placed.owner(), 3);
    assert_eq!(placed.points(), 1);

    let delta = compute_delta(&before, &grid.cells);
    assert_eq!(delta.len(), 2);
    assert_eq!(delta[0].0, (5 * 512 + 5) as u32);
    assert_eq!(delta[1].0, (5 * 512 + 6) as u32);

    match ServerMessage::full_state(grid.generation, grid.width, grid.height, &grid.cells) {
        ServerMessage::FullState { generation, width, height, cells } => {
            assert_eq!(generation, 0);
            assert_eq!(width, 512);
            assert_eq!(height, 512);
            assert_eq!(cells.len(), 512 * 512);
            assert_eq!(cells[5 * 512 + 5], placed.packed());
        },
        _ => panic!("full_state must build a FullState message"),
    }
    match ServerMessage::delta(4, delta) {
        ServerMessage::Delta { generation, changed_cells } => {
            assert_eq!(generation, 4);
            assert_eq!(changed_cells.len(), 2);
        },
        _ => panic!("delta must build a Delta message"),
    }
}

#[test]
fn test_audit_log_pagination() {
    let mut log = AuditLog::new();
    for k in 0..5 {
        log.append(AuditEventType::WithdrawalInitiated, k, 100 * k, "entry", k);
    }
    assert_eq!(log.len(), 5);
    let page = log.get_audit_log(1, 2);
    assert_eq!(page.len(), 2);
    assert_eq!(page[0].user, 1);
    assert_eq!(page[1].user, 2);
    assert_eq!(log.get_audit_log(4, 10).len(), 1);
    assert_eq!(log.get_audit_log(7, 10).len(), 0);
}

#[test]
fn test_cell_new_masks_fields() {
    // owners above 15 and points above 127 are masked by the layout
    let c = Cell::new(0xFF, 0xFF, true);
    assert_eq!(c.owner(), 0x0F);
    assert_eq!(c.points(), 0x7F);
    assert!(c.alive());
}

#[test]
fn test_gc_sweep_clears_small_stale_patterns() {
    let mut gc = GcState::new();
    let mut grid = vec![0u8; 262_144];

    // a three-cell scrap in quadrant 0 and a six-cell run in quadrant 5
    for (x, y) in [(10usize, 10usize), (11, 10), (12, 10)] {
        grid[y * 512 + x] = 1;
    }
    for k in 0..6usize {
        grid[200 * 512 + 200 + k] = 2;
    }
    // a scrap in quadrant 3, kept active by a fresh placement
    grid[20 * 512 + 400] = 3;

    // the first due sweep still sees every quadrant as active
    assert_eq!(casino_core::gc::run_gc_if_needed(&mut gc, &mut grid, 300_000_000_000), 0);
    assert_eq!(grid.iter().filter(|&&c| c != 0).count(), 10);

    // nothing moved since; protect quadrant 3 before the next sweep
    gc.mark_quadrant_active(400, 20);
    let killed = casino_core::gc::run_gc_if_needed(&mut gc, &mut grid, 600_000_000_000);
    assert_eq!(killed, 3);
    // the small scrap is gone, the large component and the protected one stay
    assert_eq!(grid[10 * 512 + 10], 0);
    assert_eq!(grid[200 * 512 + 200], 2);
    assert_eq!(grid[20 * 512 + 400], 3);
}
