use validator::state::{AccountId, PeerRecord, ValidatorState};
use validator::validator::{CurrentRow, RoundError, StartupError, Validator};

fn id(b: u8) -> AccountId {
    AccountId { bytes: vec![b; 32] }
}

fn peer(b: u8, uid: u16, last_update: u64) -> PeerRecord {
    PeerRecord { hotkey: id(b), uid, last_update, ip_type: 4, ip: 0x7f00_0001, port: 8091 }
}

fn fresh(row: Option<Vec<u8>>) -> Validator {
    let peers = vec![peer(1, 0, 0), peer(2, 1, 0), peer(3, 2, 0)];
    match Validator::new(peers, id(2), 100, None, row, None) {
        Ok(v) => v,
        Err(_) => panic!("registered validator"),
    }
}

#[test]
fn current_row_holds_its_bytes() {
    let row = CurrentRow::new(vec![4, 5]);
    assert_eq!(row.deref().as_bytes(), &vec![4, 5]);
}

#[test]
fn fresh_validator_seeds_cell_zero() {
    let v = fresh(None);
    assert_eq!(v.state.step, 1);
    assert_eq!(v.state.scores, vec![0, 0, 0]);
    assert_eq!(v.state.hotkeys.len(), 3);
    assert_eq!(v.uid, 1);
    assert_eq!(v.current_row.deref().as_bytes(), &vec![1]);
    assert_eq!(v.center_column.as_bytes(), &vec![1]);
}

#[test]
fn unregistered_validator_does_not_start() {
    let r = Validator::new(vec![peer(1, 0, 0)], id(9), 5, None, None, None);
    assert!(matches!(r, Err(StartupError::NotRegistered)));
}

#[test]
fn inconsistent_snapshot_does_not_start() {
    let saved = ValidatorState { step: 7, hotkeys: vec![id(1)], scores: vec![] };
    let r = Validator::new(vec![peer(1, 0, 0)], id(1), 5, Some(saved), Some(vec![0, 0]), None);
    assert!(matches!(r, Err(StartupError::InvalidSnapshot)));
}

#[test]
fn saved_state_is_kept_and_row_not_seeded() {
    let saved = ValidatorState { step: 7, hotkeys: vec![id(1)], scores: vec![3] };
    let r = Validator::new(vec![peer(1, 4, 0)], id(1), 5, Some(saved), Some(vec![0, 0]), None);
    let v = match r {
        Ok(v) => v,
        Err(_) => panic!("valid snapshot"),
    };
    assert_eq!(v.state.step, 7);
    assert_eq!(v.state.scores, vec![3]);
    assert_eq!(v.uid, 4);
    assert_eq!(v.current_row.deref().as_bytes(), &vec![0, 0]);
    assert_eq!(v.center_column.as_bytes(), &vec![1]);
}

#[test]
fn existing_row_is_not_seeded_at_round_one() {
    let v = fresh(Some(vec![0, 9]));
    assert_eq!(v.state.step, 1);
    assert_eq!(v.current_row.deref().as_bytes(), &vec![0, 9]);
    assert_eq!(v.center_column.as_bytes(), &vec![1]);
}

#[test]
fn new_stores_are_seeded_with_a_saved_state() {
    let saved = ValidatorState { step: 7, hotkeys: vec![id(1)], scores: vec![3] };
    let r = Validator::new(vec![peer(1, 4, 0)], id(1), 5, Some(saved), None, None);
    let v = match r {
        Ok(v) => v,
        Err(_) => panic!("valid snapshot"),
    };
    assert_eq!(v.current_row.deref().as_bytes(), &vec![1]);
    assert_eq!(v.center_column.as_bytes(), &vec![1]);
}

#[test]
fn sync_resizes_scores_and_submits_when_due() {
    let mut v = fresh(None);
    v.state.scores = vec![4, 5, 6];
    assert!(!v.needs_sync(150, 100));
    assert!(v.needs_sync(200, 100));
    let peers = vec![peer(1, 0, 0), peer(2, 1, 150), peer(3, 2, 0), peer(4, 3, 0)];
    let r = v.sync(peers, 200, 100);
    assert!(matches!(r, Ok(None)));
    assert_eq!(v.state.scores, vec![4, 5, 6, 0]);
    assert_eq!(v.state.hotkeys.len(), 4);
    assert_eq!(v.last_metagraph_sync, 200);
    let peers = vec![peer(1, 0, 0), peer(2, 1, 100), peer(3, 2, 0), peer(4, 3, 0)];
    let r = v.sync(peers, 200, 100);
    assert!(matches!(r, Ok(Some(w)) if w == vec![4, 5, 6, 0]));
    let r = v.sync(vec![peer(1, 0, 0)], 300, 100);
    assert!(matches!(r, Err(RoundError::NotRegistered)));
    assert_eq!(v.state.scores, vec![4, 5, 6, 0]);
}

#[test]
fn peer_fault_leaves_row_untouched() {
    let mut v = fresh(Some(vec![1, 2, 3, 4, 5, 6]));
    // round 9 with two peers: three bytes, width 3/2 + 1 = 2
    v.state.step = 9;
    let plan = v.plan_round(2);
    assert_eq!((plan[0].start, plan[0].end), (0, 2));
    assert_eq!((plan[1].start, plan[1].end), (2, 4));
    let out0 = v.chunk_bytes(plan[0].start, plan[0].end).unwrap();
    assert_eq!(out0, vec![1, 2]);
    let out1 = v.chunk_bytes(plan[1].start, plan[1].end).unwrap();
    assert_eq!(out1, vec![3, 4]);
    // the first peer closes its socket without answering
    assert!(!v.apply_response(plan[0].start, plan[0].end, None));
    assert!(v.apply_response(plan[1].start, plan[1].end, Some(vec![30, 40])));
    // a short answer is not taken
    assert!(!v.apply_response(plan[0].start, plan[0].end, Some(vec![9])));
    assert_eq!(v.current_row.deref().as_bytes(), &vec![1, 2, 30, 40, 5, 6]);
    assert_eq!(v.finish_round(), Ok(()));
    assert_eq!(v.state.step, 10);
}

#[test]
fn one_failed_peer_among_three() {
    let mut v = fresh(Some(vec![5u8; 12]));
    v.state.step = 32;
    // nine bytes over three peers: width 3
    let plan = v.plan_round(3);
    let ranges: Vec<(u64, u64)> = plan.iter().map(|a| (a.start, a.end)).collect();
    assert_eq!(ranges, vec![(0, 3), (3, 6), (6, 9)]);
    assert!(v.apply_response(0, 3, Some(vec![1, 2, 3])));
    assert!(!v.apply_response(3, 6, None));
    assert!(v.apply_response(6, 9, Some(vec![7, 8, 9])));
    assert_eq!(v.current_row.deref().as_bytes(), &vec![1, 2, 3, 5, 5, 5, 7, 8, 9, 5, 5, 5]);
}

#[test]
fn chunk_bytes_grows_short_row() {
    let mut v = fresh(Some(vec![7]));
    assert_eq!(v.chunk_bytes(0, 3).unwrap(), vec![7, 0, 0]);
    assert_eq!(v.current_row.deref().len(), 3);
    assert_eq!(v.chunk_bytes(1, 1).unwrap(), Vec::<u8>::new());
}

#[test]
fn round_without_peers_skips_exchange_and_repair() {
    let mut row = vec![0u8; 64];
    row[31] = 1;
    row[32] = 1;
    let mut v = fresh(Some(row.clone()));
    let plan = v.plan_round(0);
    assert!(plan.is_empty());
    assert!(v.reconcile(0).is_empty());
    assert_eq!(v.current_row.deref().as_bytes(), &row);
    assert_eq!(v.finish_round(), Ok(()));
    assert_eq!(v.state.step, 2);
    let out = v.reconcile(1);
    assert_eq!((out[31], out[32]), (1, 7));
    assert_eq!(v.current_row.deref().as_bytes(), &out);
}

#[test]
fn round_counter_stops_at_its_limit() {
    let mut v = fresh(None);
    v.state.step = u64::MAX;
    assert_eq!(v.finish_round(), Err(RoundError::StepOverflow));
    assert_eq!(v.state.step, u64::MAX);
}
