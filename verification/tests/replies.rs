use epoch_client::archive::keep_ok;
use epoch_client::rpc::{
    AccountEncoding, BodyForm, Commitment, ProgramAccountsRequest, ResponseBody, ResponseError,
};
use epoch_client::{EpochClient, Pubkey};
use solana_rpc_client_api::filter::Memcmp;

#[test]
fn account_id_for_each_reply() {
    let id = |row: Result<Option<Result<u8, &'static str>>, &'static str>| {
        EpochClient::account_id(row)
    };
    assert_eq!(id(Ok(Some(Ok(3)))), Ok(Some(3)));
    assert_eq!(id(Ok(Some(Err("convert")))), Err("convert"));
    assert_eq!(id(Ok(None)), Ok(None));
    assert_eq!(id(Err("query")), Err("query"));
}

#[test]
fn accounts_drop_the_rows_that_fail() {
    let rows: Vec<Result<u8, ()>> = vec![Err(()), Ok(1), Ok(2), Err(()), Ok(3)];
    assert_eq!(EpochClient::accounts(Ok::<_, String>(rows)), Ok(vec![1, 2, 3]));
}

#[test]
fn accounts_return_the_archive_error() {
    let rows: Result<Vec<Result<u8, ()>>, &str> = Err("query");
    assert_eq!(EpochClient::accounts(rows), Err("query"));
}

#[test]
fn good_rows_all_stay() {
    let rows: Vec<Result<u8, ()>> = vec![Ok(1), Ok(2)];
    assert_eq!(keep_ok(rows), vec![1, 2]);
    assert_eq!(keep_ok(Vec::<Result<u8, ()>>::new()), Vec::<u8>::new());
}

#[test]
fn rows_are_independent() {
    let a: Vec<Result<u8, ()>> = vec![Ok(1), Err(())];
    let b: Vec<Result<u8, ()>> = vec![Err(()), Ok(2)];
    let both: Vec<Result<u8, ()>> = vec![Ok(1), Err(()), Err(()), Ok(2)];
    let mut apart = keep_ok(a);
    apart.extend(keep_ok(b));
    assert_eq!(keep_ok(both), apart);
}

#[test]
fn slots_for_each_reply() {
    assert_eq!(EpochClient::highest_slot(Ok::<_, ()>(Some(269_000_000))), Ok(Some(269_000_000)));
    assert_eq!(EpochClient::highest_slot(Ok::<_, ()>(None)), Ok(None));
    assert_eq!(EpochClient::highest_slot(Err("query")), Err("query"));
    assert_eq!(EpochClient::lowest_slot(Ok::<_, ()>(Some(0))), Ok(Some(0)));
    assert_eq!(EpochClient::lowest_slot(Ok::<_, ()>(None)), Ok(None));
    assert_eq!(EpochClient::lowest_slot(Err("query")), Err("query"));
}

#[test]
fn a_negative_stored_slot_wraps_around() {
    assert_eq!(EpochClient::highest_slot(Ok::<_, ()>(Some(-1))), Ok(Some(u64::MAX)));
    assert_eq!(EpochClient::lowest_slot(Ok::<_, ()>(Some(i64::MIN))), Ok(Some(1 << 63)));
    assert_eq!(
        EpochClient::highest_slot(Ok::<_, ()>(Some(i64::MAX))),
        Ok(Some(9_223_372_036_854_775_807))
    );
}

#[test]
fn slot_timestamp_for_each_reply() {
    let time: Result<Option<i64>, &str> = Ok(Some(1_700_000_000));
    assert_eq!(EpochClient::get_slot_timestamp(time), Some(1_700_000_000));
    assert_eq!(EpochClient::get_slot_timestamp(Ok::<_, ()>(None)), None);
    assert_eq!(EpochClient::get_slot_timestamp(Err("skipped slot")), None);
}

#[test]
fn program_accounts_request_asks_for_the_discriminator() {
    let owner = Pubkey([3; 32]);
    let discriminator = [159, 117, 95, 227, 239, 151, 58, 236];
    let request = EpochClient::get_program_accounts(owner, &discriminator);
    assert!(request.owner == owner);
    assert_eq!(request.encoding, AccountEncoding::Base64);
    assert_eq!(request.commitment, Commitment::Confirmed);
    assert_eq!(request.filters, vec![Memcmp::new_base58_encoded(0, &discriminator)]);
    assert_eq!(request.filters[0].offset(), 0);
    assert_eq!(request.filters[0].bytes().unwrap().as_slice(), &discriminator);
    assert!(request.filters[0].raw_bytes_as_ref().is_none());
    let mut data = discriminator.to_vec();
    data.extend([1, 2, 3]);
    assert!(request.filters[0].bytes_match(&data));
    assert!(!request.filters[0].bytes_match(&data[1..]));
}

#[test]
fn request_matches_the_given_condition() {
    let condition = Memcmp::new_raw_bytes(4, vec![1, 2]);
    let request = ProgramAccountsRequest::matching(Pubkey([9; 32]), condition.clone());
    assert_eq!(request.filters, vec![condition]);
    assert!(request.owner == Pubkey([9; 32]));
}

#[test]
fn program_accounts_drop_what_does_not_deserialize() {
    let reply: Vec<Result<u8, ()>> = vec![Ok(1), Err(()), Ok(2)];
    assert_eq!(EpochClient::program_accounts(Ok::<_, ()>(reply)), Ok(vec![1, 2]));
    let failed: Result<Vec<Result<u8, ()>>, &str> = Err("rpc");
    assert_eq!(EpochClient::program_accounts(failed), Err("rpc"));
}

#[test]
fn only_status_ok_is_read_as_bytes() {
    assert_eq!(EpochClient::response_form(200), BodyForm::Bytes);
    for status in [0, 100, 199, 201, 204, 404, 500, u16::MAX] {
        assert_eq!(EpochClient::response_form(status), BodyForm::Text);
    }
}

#[test]
fn response_for_each_body() {
    let parse = |status: u16, body: ResponseBody<u8, &'static str>| {
        EpochClient::parse_borsh_response(status, body)
    };
    assert_eq!(parse(200, ResponseBody::Decoded(Ok(5))), Ok(5));
    assert_eq!(
        parse(200, ResponseBody::Decoded(Err("short"))),
        Err(ResponseError::Unreadable("short"))
    );
    assert_eq!(
        parse(404, ResponseBody::Text(Ok("no such account".to_string()))),
        Err(ResponseError::Refused("no such account".to_string()))
    );
    assert_eq!(
        parse(500, ResponseBody::Text(Err("closed"))),
        Err(ResponseError::Unreadable("closed"))
    );
}

#[test]
fn the_lowest_slot_stays_below_the_highest() {
    let lowest = EpochClient::lowest_slot(Ok::<_, ()>(Some(250_000_001))).unwrap();
    let highest = EpochClient::highest_slot(Ok::<_, ()>(Some(250_000_002))).unwrap();
    assert!(lowest < highest);
}
