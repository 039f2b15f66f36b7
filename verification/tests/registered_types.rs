use epoch_client::{EpochClient, Pubkey, QueryRegisteredTypes, RegisteredType};

const DRIFT: Pubkey = Pubkey([1; 32]);
const PYTH: Pubkey = Pubkey([2; 32]);

fn registered(program_name: &str, program: Pubkey, discriminant: &str) -> RegisteredType {
    RegisteredType {
        program_name: program_name.to_string(),
        program,
        discriminant: discriminant.to_string(),
    }
}

fn types() -> Vec<RegisteredType> {
    vec![
        registered("Drift", DRIFT, "User"),
        registered("drift", DRIFT, "PerpMarket"),
        registered("Pyth", PYTH, "User"),
        registered("DRIFT", PYTH, "user"),
    ]
}

fn query(
    program_name: Option<&str>,
    program: Option<Pubkey>,
    discriminant: Option<&str>,
) -> QueryRegisteredTypes {
    QueryRegisteredTypes {
        program_name: program_name.map(|s| s.to_string()),
        program,
        discriminant: discriminant.map(|s| s.to_string()),
    }
}

fn found(query: &QueryRegisteredTypes) -> Vec<RegisteredType> {
    EpochClient::registered_types(Ok::<_, String>(types()), Some(query)).unwrap()
}

fn picked(indices: &[usize]) -> Vec<RegisteredType> {
    types()
        .into_iter()
        .enumerate()
        .filter(|(i, _)| indices.contains(i))
        .map(|(_, t)| t)
        .collect()
}

#[test]
fn no_query_returns_every_type() {
    let all = EpochClient::registered_types(Ok::<_, String>(types()), None);
    assert_eq!(all, Ok(types()));
}

#[test]
fn empty_query_returns_every_type() {
    assert_eq!(found(&query(None, None, None)), types());
}

#[test]
fn decoder_error_is_returned_with_and_without_a_query() {
    let q = query(Some("drift"), None, None);
    assert_eq!(
        EpochClient::registered_types(Err("no decoders".to_string()), None),
        Err("no decoders".to_string())
    );
    assert_eq!(
        EpochClient::registered_types(Err("no decoders".to_string()), Some(&q)),
        Err("no decoders".to_string())
    );
}

#[test]
fn each_criterion_alone() {
    assert_eq!(found(&query(Some("dRiFt"), None, None)), picked(&[0, 1, 3]));
    assert_eq!(found(&query(None, Some(DRIFT), None)), picked(&[0, 1]));
    assert_eq!(found(&query(None, None, Some("USER"))), picked(&[0, 2, 3]));
}

#[test]
fn two_criteria_together() {
    assert_eq!(found(&query(Some("drift"), Some(PYTH), None)), picked(&[3]));
    assert_eq!(found(&query(Some("drift"), None, Some("user"))), picked(&[0, 3]));
    assert_eq!(found(&query(None, Some(PYTH), Some("user"))), picked(&[2, 3]));
}

#[test]
fn three_criteria_together() {
    assert_eq!(found(&query(Some("DRIFT"), Some(DRIFT), Some("user"))), picked(&[0]));
    assert_eq!(found(&query(Some("PYTH"), Some(DRIFT), Some("user"))), picked(&[]));
}

#[test]
fn program_must_be_equal_in_every_byte() {
    let mut bytes = [1u8; 32];
    bytes[31] = 0;
    assert_eq!(found(&query(None, Some(Pubkey(bytes)), None)), picked(&[]));
    assert!(Pubkey(bytes) != DRIFT);
    assert!(Pubkey([1; 32]) == DRIFT);
}

#[test]
fn case_of_other_than_ascii_letters_makes_no_difference() {
    let types = vec![registered("Äpfel", DRIFT, "ΟΔΟΣ"), registered("Apfel", DRIFT, "ΟΔΟΣ")];
    let q = query(Some("äPFEL"), None, Some("οδος"));
    let found = EpochClient::registered_types(Ok::<_, String>(types), Some(&q)).unwrap();
    assert_eq!(found, vec![registered("Äpfel", DRIFT, "ΟΔΟΣ")]);
}

#[test]
fn criteria_narrow_in_turn() {
    let by_name = query(Some("drift"), None, None);
    let by_program = query(None, Some(PYTH), None);
    let by_discriminant = query(None, None, Some("user"));
    let mut rest = types();
    for q in [&by_name, &by_program, &by_discriminant] {
        rest = EpochClient::registered_types(Ok::<_, String>(rest), Some(q)).unwrap();
    }
    assert_eq!(rest, found(&query(Some("drift"), Some(PYTH), Some("user"))));
}

#[test]
fn searching_again_changes_nothing() {
    let q = query(Some("drift"), None, None);
    let once = found(&q);
    let twice = EpochClient::registered_types(Ok::<_, String>(found(&q)), Some(&q)).unwrap();
    assert_eq!(once, twice);
}

#[test]
fn lowered_query_holds_lowercase_texts() {
    assert_eq!(
        query(Some("Drift V2"), Some(DRIFT), Some("UserStats")).lowered(),
        query(Some("drift v2"), Some(DRIFT), Some("userstats"))
    );
    assert_eq!(query(None, None, None).lowered(), query(None, None, None));
}

#[test]
fn exact_match_minds_the_case() {
    let q = query(Some("drift"), Some(DRIFT), Some("user"));
    let (drift, user) = ("drift".to_string(), "user".to_string());
    assert!(q.matches_exactly(&drift, &DRIFT, &user));
    assert!(!q.matches_exactly(&"Drift".to_string(), &DRIFT, &user));
    assert!(!q.matches_exactly(&drift, &PYTH, &user));
    assert!(!q.matches_exactly(&drift, &DRIFT, &"User".to_string()));
}

#[test]
fn case_of_a_query_makes_no_difference() {
    assert_eq!(
        found(&query(Some("DRIFT"), None, Some("USER"))),
        found(&query(Some("drift"), None, Some("user")))
    );
}

#[test]
fn ascii_type_is_found_beside_one_that_is_not() {
    let types = vec![registered("Äpfel", PYTH, "User"), registered("Drift", DRIFT, "User")];
    let q = query(Some("drift"), None, None);
    let found = EpochClient::registered_types(Ok::<_, String>(types), Some(&q)).unwrap();
    assert_eq!(found, vec![registered("Drift", DRIFT, "User")]);
}
