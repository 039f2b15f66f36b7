use epoch_client::{
    sort_newest_first, DecodeEvent, DecodeRequest, DecodeRun, DecodedEpochAccount, EpochAccount,
    EpochClient, Pubkey,
};

const DRIFT: Pubkey = Pubkey([7; 32]);

fn row(key: &str, slot: u64, data: &[u8]) -> Result<EpochAccount, String> {
    Ok(EpochAccount {
        key: key.to_string(),
        slot,
        owner: "drift".to_string(),
        data: data.to_vec(),
    })
}

fn account(key: &str, slot: u64, decoded: u64) -> DecodedEpochAccount<u64> {
    DecodedEpochAccount {
        key: key.to_string(),
        slot,
        owner: "drift".to_string(),
        decoded,
    }
}

/// A decoder that knows one account type, whose data is one byte long.
fn name(owner: &Pubkey, discriminant: &[u8; 8]) -> Option<String> {
    if *owner == DRIFT && *discriminant == *b"user0000" {
        Some("User".to_string())
    } else {
        None
    }
}

fn decode(owner: &Pubkey, name: &str, data: &[u8]) -> Result<u64, String> {
    if *owner == DRIFT && name == "User" && data.len() == 9 {
        Ok(u64::from(data[8]))
    } else {
        Err("length".to_string())
    }
}

fn run_over(owner: Pubkey, rows: Vec<Result<EpochAccount, String>>) -> DecodeRun<u64> {
    let mut run = DecodeRun::new(owner);
    for row in rows {
        run = run.step(DecodeEvent::Account(row));
        loop {
            let event = match run.request() {
                DecodeRequest::NextAccount => break,
                DecodeRequest::LookUpName { owner, discriminant } => {
                    DecodeEvent::Name(name(owner, &discriminant))
                }
                DecodeRequest::Decode { owner, name, data } => {
                    DecodeEvent::Decoded(decode(owner, name, data))
                }
            };
            run = run.step(event);
        }
    }
    run
}

fn rows() -> Vec<Result<EpochAccount, String>> {
    vec![
        row("a", 5, b"user0000\x01"),
        Err("not converted".to_string()),
        row("b", 9, b"user0000\x02"),
        row("c", 7, b"unknown0\x03"),
        row("d", 5, b"user0000\x04"),
        row("e", 8, b"user0000\x05\x06"),
        row("f", 6, b"user0000\x07"),
    ]
}

#[test]
fn single_steps_keep_the_rows_that_decode_in_order() {
    assert_eq!(
        run_over(DRIFT, rows()).finish(),
        vec![account("a", 5, 1), account("b", 9, 2), account("d", 5, 4), account("f", 6, 7)]
    );
}

#[test]
fn sorted_run_has_the_highest_slot_first() {
    assert_eq!(
        sort_newest_first(run_over(DRIFT, rows()).finish()),
        vec![account("b", 9, 2), account("f", 6, 7), account("d", 5, 4), account("a", 5, 1)]
    );
}

#[test]
fn run_for_another_program_decodes_nothing() {
    assert_eq!(run_over(Pubkey([0; 32]), rows()).finish(), vec![]);
}

#[test]
fn run_without_rows_is_empty() {
    assert_eq!(run_over(DRIFT, vec![]).finish(), vec![]);
    assert_eq!(borsh(DRIFT, vec![]), vec![]);
    assert_eq!(json(DRIFT, vec![]), vec![]);
}

#[test]
fn requests_follow_the_replies() {
    let run: DecodeRun<u64> = DecodeRun::new(DRIFT);
    assert!(matches!(run.request(), DecodeRequest::NextAccount));
    let run = run.step(DecodeEvent::Account(row("a", 1, b"user0000\x01")));
    match run.request() {
        DecodeRequest::LookUpName { owner, discriminant } => {
            assert!(*owner == DRIFT);
            assert_eq!(&discriminant, b"user0000");
        }
        other => panic!("{:?}", other),
    }
    let run = run.step::<String>(DecodeEvent::Name(Some("User".to_string())));
    match run.request() {
        DecodeRequest::Decode { owner, name, data } => {
            assert!(*owner == DRIFT);
            assert_eq!(name, "User");
            assert_eq!(data, b"user0000\x01");
        }
        other => panic!("{:?}", other),
    }
    let run = run.step::<String>(DecodeEvent::Decoded(Ok(1)));
    assert!(matches!(run.request(), DecodeRequest::NextAccount));
    assert_eq!(run.finish(), vec![account("a", 1, 1)]);
}

#[test]
fn data_of_eight_bytes_is_enough_for_a_name() {
    let run: DecodeRun<u64> = DecodeRun::new(DRIFT);
    let run = run.step(DecodeEvent::Account(row("a", 1, b"12345678")));
    match run.request() {
        DecodeRequest::LookUpName { discriminant, .. } => assert_eq!(&discriminant, b"12345678"),
        other => panic!("{:?}", other),
    }
    let run = run.step::<String>(DecodeEvent::Name(None));
    assert!(matches!(run.request(), DecodeRequest::NextAccount));
}

#[test]
fn accounts_of_one_slot_come_in_reverse() {
    let sorted = sort_newest_first(vec![
        account("a", 1, 0),
        account("b", 2, 0),
        account("c", 1, 0),
        account("d", 2, 0),
        account("e", 1, 0),
    ]);
    let keys: Vec<&str> = sorted.iter().map(|a| a.key.as_str()).collect();
    assert_eq!(keys, vec!["d", "b", "e", "c", "a"]);
}

#[test]
fn sorting_agrees_with_a_stable_sort_turned_around() {
    let slots: Vec<u64> = (0..1000u64).map(|i| (i * 7919 + 13) % 97).collect();
    let make = || -> Vec<DecodedEpochAccount<u64>> {
        slots
            .iter()
            .enumerate()
            .map(|(i, slot)| account(&i.to_string(), *slot, i as u64))
            .collect()
    };
    let mut expected = make();
    expected.sort_by_key(|a| a.slot);
    expected.reverse();
    assert_eq!(sort_newest_first(make()), expected);
}

#[test]
fn the_extreme_slots_are_ordered() {
    let sorted = sort_newest_first(vec![account("a", 0, 0), account("b", u64::MAX, 0)]);
    assert_eq!(sorted, vec![account("b", u64::MAX, 0), account("a", 0, 0)]);
}

type Rows = Vec<Result<EpochAccount, String>>;

fn borsh_reply(
    owner: Pubkey,
    reply: Result<Rows, &'static str>,
) -> Result<Vec<DecodedEpochAccount<u64>>, &'static str> {
    EpochClient::borsh_decoded_accounts(
        owner,
        reply,
        |owner, discriminant| name(owner, &discriminant),
        |owner, name, data| decode(owner, name, data),
    )
}

fn json_reply(
    owner: Pubkey,
    reply: Result<Rows, &'static str>,
) -> Result<Vec<DecodedEpochAccount<u64>>, &'static str> {
    EpochClient::json_decoded_accounts(
        owner,
        reply,
        |owner, discriminant| name(owner, &discriminant),
        |owner, name, data| decode(owner, name, data),
    )
}

fn borsh(owner: Pubkey, rows: Rows) -> Vec<DecodedEpochAccount<u64>> {
    borsh_reply(owner, Ok(rows)).unwrap()
}

fn json(owner: Pubkey, rows: Rows) -> Vec<DecodedEpochAccount<u64>> {
    json_reply(owner, Ok(rows)).unwrap()
}

#[test]
fn archive_error_is_returned() {
    assert_eq!(borsh_reply(DRIFT, Err("query")), Err("query"));
    assert_eq!(json_reply(DRIFT, Err("query")), Err("query"));
}

#[test]
fn json_accounts_come_with_the_highest_slot_first() {
    assert_eq!(
        json(DRIFT, rows()),
        vec![account("b", 9, 2), account("f", 6, 7), account("d", 5, 4), account("a", 5, 1)]
    );
}

#[test]
fn whole_run_keeps_the_rows_that_decode_in_order() {
    assert_eq!(
        borsh(DRIFT, rows()),
        vec![account("a", 5, 1), account("b", 9, 2), account("d", 5, 4), account("f", 6, 7)]
    );
    assert_eq!(borsh(DRIFT, vec![]), vec![]);
}

#[test]
fn whole_run_agrees_with_single_steps() {
    for owner in [DRIFT, Pubkey([0; 32])] {
        assert_eq!(
            json(owner, rows()),
            sort_newest_first(run_over(owner, rows()).finish())
        );
    }
}

#[test]
fn whole_run_asks_for_no_name_of_a_failed_row_and_decodes_no_unnamed_one() {
    let asked = std::cell::RefCell::new(Vec::new());
    let run: DecodeRun<u64> = DecodeRun::over(
        DRIFT,
        rows(),
        |owner, discriminant| {
            asked.borrow_mut().push(format!("name {:?}", discriminant));
            name(owner, &discriminant)
        },
        |owner, name, data| {
            asked.borrow_mut().push(format!("decode {} {}", name, data.len()));
            decode(owner, name, data)
        },
    );
    assert!(matches!(run.request(), DecodeRequest::NextAccount));
    let user = format!("name {:?}", b"user0000");
    let unknown = format!("name {:?}", b"unknown0");
    let expected = vec![
        user.clone(),
        "decode User 9".to_string(),
        user.clone(),
        "decode User 9".to_string(),
        unknown,
        user.clone(),
        "decode User 9".to_string(),
        user.clone(),
        "decode User 10".to_string(),
        user,
        "decode User 9".to_string(),
    ];
    assert_eq!(*asked.borrow(), expected);
}

#[test]
fn decoded_rows_are_independent() {
    let front = borsh(DRIFT, rows());
    let back = borsh(DRIFT, rows());
    let mut both_rows = rows();
    both_rows.extend(rows());
    let both = borsh(DRIFT, both_rows);
    let apart: Vec<DecodedEpochAccount<u64>> = front.into_iter().chain(back).collect();
    assert_eq!(both, apart);
}

#[test]
fn failed_rows_leave_no_trace() {
    let good: Vec<Result<EpochAccount, String>> = rows()
        .into_iter()
        .enumerate()
        .filter(|(i, _)| [0, 2, 4, 6].contains(i))
        .map(|(_, row)| row)
        .collect();
    assert_eq!(
        borsh(DRIFT, good),
        borsh(DRIFT, rows())
    );
}
