use workpool::{tag_args, CapturedFailure, RecordError, ResultStore};

fn square(x: i64) -> i64 {
    x * x
}

fn fail_if_even(x: i64) -> Result<i64, CapturedFailure> {
    if x % 2 == 0 {
        Err(CapturedFailure::new(format!("{} is even", x)))
    } else {
        Ok(x)
    }
}

#[test]
fn tag_args_pairs_each_input_with_its_index() {
    let tagged = tag_args(vec!["a", "b", "c"]);
    assert_eq!(tagged, vec![(0, "a"), (1, "b"), (2, "c")]);
    let none: Vec<(usize, u8)> = tag_args(Vec::new());
    assert!(none.is_empty());
}

#[test]
fn squares_come_back_in_input_order() {
    let args = vec![1i64, 2, 3, 4];
    let mut store: ResultStore<i64> = ResultStore::new(args.len());
    // Tasks finish out of order.
    let finish = [2usize, 0, 3, 1];
    for (k, &i) in finish.iter().enumerate() {
        let done = store.record(i, Ok(square(args[i]))).unwrap();
        assert_eq!(done, k == finish.len() - 1);
        assert_eq!(store.filled(), k + 1);
    }
    assert!(store.is_complete());
    assert_eq!(store.into_ordered(), vec![Ok(1), Ok(4), Ok(9), Ok(16)]);
}

#[test]
fn identity_map_returns_inputs_for_any_finish_order() {
    let args: Vec<u32> = (0..50).map(|x| x * 3 + 1).collect();
    for shift in [0usize, 7, 23, 49] {
        let mut store: ResultStore<u32> = ResultStore::new(args.len());
        for k in 0..args.len() {
            let i = (k * 13 + shift) % args.len();
            store.record(i, Ok(args[i])).unwrap();
        }
        assert!(store.is_complete());
        let expected: Vec<Result<u32, CapturedFailure>> = args.iter().map(|a| Ok(*a)).collect();
        assert_eq!(store.into_ordered(), expected);
    }
}

#[test]
fn failures_stay_at_their_positions() {
    let args = vec![1i64, 2, 3, 4];
    let mut store: ResultStore<i64> = ResultStore::new(args.len());
    for &i in [3usize, 1, 2, 0].iter() {
        store.record(i, fail_if_even(args[i])).unwrap();
    }
    let out = store.into_ordered();
    assert_eq!(out.len(), 4);
    assert_eq!(out[0], Ok(1));
    assert!(out[1].is_err());
    assert_eq!(out[2], Ok(3));
    assert!(out[3].is_err());
    assert_eq!(out[1].clone().unwrap_err().message, "2 is even");
}

#[test]
fn empty_batch_is_complete_at_once() {
    let store: ResultStore<i32> = ResultStore::new(0);
    assert_eq!(store.len(), 0);
    assert!(store.is_complete());
    assert!(store.into_ordered().is_empty());
}

#[test]
fn record_refuses_bad_indices() {
    let mut store: ResultStore<i32> = ResultStore::new(2);
    assert_eq!(store.record(2, Ok(1)), Err(RecordError::OutOfRange));
    assert_eq!(store.record(0, Ok(1)), Ok(false));
    assert_eq!(store.record(0, Ok(2)), Err(RecordError::AlreadyRecorded));
    assert_eq!(store.filled(), 1);
    assert!(!store.is_complete());
    assert_eq!(store.record(1, Err(CapturedFailure::new(String::from("boom")))), Ok(true));
    assert_eq!(
        store.into_ordered(),
        vec![Ok(1), Err(CapturedFailure { message: String::from("boom") })]
    );
}
