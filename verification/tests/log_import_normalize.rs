use kobayashi::log_import_normalize::{collapsed_repeat_expansion, RepeatCopy, MAX_COLLAPSED_REPEAT};

#[test]
fn expansion_without_repeats_is_identity() {
    let plan = collapsed_repeat_expansion(&[None, Some(1), Some(0), None]).unwrap();
    let expected: Vec<RepeatCopy> = (0..4).map(|k| RepeatCopy { source: k, application: None }).collect();
    assert_eq!(plan, expected);
    assert_eq!(collapsed_repeat_expansion(&[]).unwrap(), vec![]);
}

#[test]
fn expansion_copies_collapsed_events() {
    let plan = collapsed_repeat_expansion(&[None, Some(3), Some(1)]).unwrap();
    assert_eq!(
        plan,
        vec![
            RepeatCopy { source: 0, application: None },
            RepeatCopy { source: 1, application: Some((0, 3)) },
            RepeatCopy { source: 1, application: Some((1, 3)) },
            RepeatCopy { source: 1, application: Some((2, 3)) },
            RepeatCopy { source: 2, application: None },
        ]
    );
    let max = collapsed_repeat_expansion(&[Some(MAX_COLLAPSED_REPEAT)]).unwrap();
    assert_eq!(max.len(), 256);
    assert_eq!(max[255], RepeatCopy { source: 0, application: Some((255, 256)) });
}

#[test]
fn expansion_rejects_oversized_count() {
    assert_eq!(
        collapsed_repeat_expansion(&[Some(2), Some(257), Some(1000)]).unwrap_err(),
        "collapsed_repeat_count 257 exceeds max 256"
    );
    assert_eq!(
        collapsed_repeat_expansion(&[None, Some(u64::MAX)]).unwrap_err(),
        format!("collapsed_repeat_count {} exceeds max 256", u64::MAX)
    );
}
