//! Searching the account types that the decoder knows.

use crate::accounts::Pubkey;
use crate::client::EpochClient;
use crate::positions::{ascending, lemma_filter_positions};
use vstd::prelude::*;

verus! {

/// An account type that the decoder knows.
#[derive(Debug, PartialEq, Eq)]
pub struct RegisteredType {
    pub program_name: String,
    pub program: Pubkey,
    pub discriminant: String,
}

/// A search for registered types. A criterion that is left out admits all.
#[derive(Debug, PartialEq, Eq)]
pub struct QueryRegisteredTypes {
    pub program_name: Option<String>,
    pub program: Option<Pubkey>,
    pub discriminant: Option<String>,
}

/// The lowercase equivalent of a text: what `str::to_lowercase` gives for it.
pub uninterp spec fn lowercase(text: Seq<char>) -> Seq<char>;

/// An ASCII character, with the letters `A` to `Z` as `a` to `z`.
pub open spec fn ascii_lowercase_char(c: char) -> char {
    if 'A' <= c <= 'Z' {
        (c as u32 + 32) as char
    } else {
        c
    }
}

/// An ASCII text in lowercase.
pub open spec fn ascii_lowercase(text: Seq<char>) -> Seq<char> {
    text.map_values(|c: char| ascii_lowercase_char(c))
}

/// All characters of `text` are ASCII.
pub open spec fn is_ascii(text: Seq<char>) -> bool {
    forall|i: int| 0 <= i < text.len() ==> (#[trigger] text[i] as u32) < 128
}

/// `str::to_lowercase` gives the text's lowercase equivalent, by the Unicode
/// tables, which does not depend on a locale. Of ASCII text it only turns the
/// letters `A` to `Z` into `a` to `z`. What it makes of other text is named
/// and not spelled out.
pub assume_specification[ str::to_lowercase ](text: &str) -> (lower: String)
    ensures
        lower@ == lowercase(text@),
        is_ascii(text@) ==> lower@ == ascii_lowercase(text@),
;

/// `lower` is the lowercase equivalent of `text`.
pub open spec fn is_lowercase_of(lower: Seq<char>, text: Seq<char>) -> bool {
    &&& lower == lowercase(text)
    &&& is_ascii(text) ==> lower == ascii_lowercase(text)
}

/// Two texts are the same but for the case of their letters.
pub open spec fn same_text(a: Seq<char>, b: Seq<char>) -> bool {
    lowercase(a) == lowercase(b)
}

impl QueryRegisteredTypes {
    /// The query names exactly `program_name`, `program` and `discriminant`
    /// wherever it names one.
    pub open spec fn names_exactly(
        self,
        program_name: Seq<char>,
        program: Pubkey,
        discriminant: Seq<char>,
    ) -> bool {
        &&& self.program_name matches Some(wanted) ==> program_name == wanted@
        &&& self.program matches Some(wanted) ==> program == wanted
        &&& self.discriminant matches Some(wanted) ==> discriminant == wanted@
    }

    /// `found` meets every criterion of the query; texts may differ in case.
    pub open spec fn admits(self, found: RegisteredType) -> bool {
        &&& self.program_name matches Some(wanted) ==> same_text(found.program_name@, wanted@)
        &&& self.program matches Some(wanted) ==> found.program == wanted
        &&& self.discriminant matches Some(wanted) ==> same_text(found.discriminant@, wanted@)
    }

    /// The texts of the query are ASCII.
    pub open spec fn is_ascii(self) -> bool {
        &&& self.program_name matches Some(wanted) ==> is_ascii(wanted@)
        &&& self.discriminant matches Some(wanted) ==> is_ascii(wanted@)
    }

    /// `found` meets every criterion of the query; texts may differ in the case
    /// of ASCII letters.
    pub open spec fn admits_ascii(self, found: RegisteredType) -> bool {
        &&& self.program_name matches Some(wanted) ==> ascii_lowercase(found.program_name@)
            == ascii_lowercase(wanted@)
        &&& self.program matches Some(wanted) ==> found.program == wanted
        &&& self.discriminant matches Some(wanted) ==> ascii_lowercase(found.discriminant@)
            == ascii_lowercase(wanted@)
    }

    /// `lower` is the query with its texts in lowercase.
    pub open spec fn has_lowered(self, lower: Self) -> bool {
        &&& lower.program == self.program
        &&& lower.program_name is Some == self.program_name is Some
        &&& self.program_name matches Some(text) ==> is_lowercase_of(
            lower.program_name->0@,
            text@,
        )
        &&& lower.discriminant is Some == self.discriminant is Some
        &&& self.discriminant matches Some(text) ==> is_lowercase_of(
            lower.discriminant->0@,
            text@,
        )
    }

    /// Whether each criterion of the query equals what is handed in.
    pub fn matches_exactly(
        &self,
        program_name: &String,
        program: &Pubkey,
        discriminant: &String,
    ) -> (matched: bool)
        ensures
            matched == self.names_exactly(program_name@, *program, discriminant@),
    {
        let name_fits = match &self.program_name {
            Some(wanted) => *program_name == *wanted,
            None => true,
        };
        let program_fits = match &self.program {
            Some(wanted) => *program == *wanted,
            None => true,
        };
        let discriminant_fits = match &self.discriminant {
            Some(wanted) => *discriminant == *wanted,
            None => true,
        };
        name_fits && program_fits && discriminant_fits
    }

    /// The query with its texts in lowercase.
    pub fn lowered(&self) -> (lower: Self)
        ensures
            self.has_lowered(lower),
    {
        QueryRegisteredTypes {
            program_name: match &self.program_name {
                Some(text) => Some(text.as_str().to_lowercase()),
                None => None,
            },
            program: self.program,
            discriminant: match &self.discriminant {
                Some(text) => Some(text.as_str().to_lowercase()),
                None => None,
            },
        }
    }
}

impl RegisteredType {
    /// The texts of the type are ASCII.
    pub open spec fn is_ascii(self) -> bool {
        is_ascii(self.program_name@) && is_ascii(self.discriminant@)
    }
}

/// The types among `types` that `query` admits; all of them without a query.
pub open spec fn selected(
    types: Seq<RegisteredType>,
    query: Option<&QueryRegisteredTypes>,
) -> Seq<RegisteredType> {
    match query {
        None => types,
        Some(query) => types.filter(|t: RegisteredType| query.admits(t)),
    }
}

/// Of the types that are ASCII, an ASCII query admits those that differ from it
/// at most in the case of ASCII letters.
pub open spec fn admits_ascii_by_case(
    types: Seq<RegisteredType>,
    query: QueryRegisteredTypes,
) -> bool {
    query.is_ascii() ==> forall|i: int|
        0 <= i < types.len() && (#[trigger] types[i]).is_ascii() ==> query.admits(types[i])
            == query.admits_ascii(types[i])
}

/// `types` and `query` are ASCII throughout.
pub open spec fn all_ascii(types: Seq<RegisteredType>, query: QueryRegisteredTypes) -> bool {
    query.is_ascii() && forall|i: int| 0 <= i < types.len() ==> (#[trigger] types[i]).is_ascii()
}

proof fn lemma_filters_agree<T>(s: Seq<T>, p: spec_fn(T) -> bool, q: spec_fn(T) -> bool)
    requires
        forall|i: int| 0 <= i < s.len() ==> p(#[trigger] s[i]) == q(s[i]),
    ensures
        s.filter(p) == s.filter(q),
    decreases s.len(),
{
    reveal(Seq::filter);
    if s.len() > 0 {
        lemma_filters_agree(s.drop_last(), p, q);
        assert(p(s[s.len() - 1]) == q(s[s.len() - 1]));
    }
}

/// The types among `types` that `query` admits, in their order.
fn select(types: Vec<RegisteredType>, query: &QueryRegisteredTypes) -> (found: Vec<RegisteredType>)
    ensures
        found@ == types@.filter(|t: RegisteredType| query.admits(t)),
        admits_ascii_by_case(types@, *query),
        all_ascii(types@, *query) ==> found@ == types@.filter(
            |t: RegisteredType| query.admits_ascii(t),
        ),
{
    let ghost all = types@;
    let ghost admitted = |t: RegisteredType| query.admits(t);
    let ghost admitted_ascii = |t: RegisteredType| query.admits_ascii(t);
    let lower = query.lowered();
    let mut found: Vec<RegisteredType> = Vec::new();
    for t in rows: types
        invariant
            rows.seq() == all,
            all == types@,
            query.has_lowered(lower),
            admitted == (|t: RegisteredType| query.admits(t)),
            admitted_ascii == (|t: RegisteredType| query.admits_ascii(t)),
            found@ == all.take(rows.index()).filter(admitted),
            admits_ascii_by_case(all.take(rows.index()), *query),
    {
        let program_name = t.program_name.as_str().to_lowercase();
        let discriminant = t.discriminant.as_str().to_lowercase();
        let fits = lower.matches_exactly(&program_name, &t.program, &discriminant);
        proof {
            let seen = all.take(rows.index());
            assert(all.take(rows.index() + 1) =~= seen.push(t));
            seen.lemma_filter_push(t, admitted);
        }
        if fits {
            found.push(t);
        }
    }
    proof {
        assert(all.take(all.len() as int) =~= all);
        if all_ascii(all, *query) {
            lemma_filters_agree(all, admitted, admitted_ascii);
        }
    }
    found
}

impl EpochClient {
    /// The registered types that `query` admits, in the order in which the
    /// decoder lists them; all of them without a query. Where the decoder has
    /// no list to give, its error is returned.
    pub fn registered_types<E>(
        types: Result<Vec<RegisteredType>, E>,
        query: Option<&QueryRegisteredTypes>,
    ) -> (found: Result<Vec<RegisteredType>, E>)
        ensures
            match types {
                Err(e) => found == Err::<Vec<RegisteredType>, E>(e),
                Ok(types) => {
                    &&& found is Ok
                    &&& found->Ok_0@ == selected(types@, query)
                    &&& query matches Some(query) ==> admits_ascii_by_case(types@, *query)
                    &&& query matches Some(query) ==> all_ascii(types@, *query) ==> found->Ok_0@
                        == types@.filter(|t: RegisteredType| query.admits_ascii(t))
                },
            },
    {
        match types {
            Err(e) => Err(e),
            Ok(types) => match query {
                None => Ok(types),
                Some(query) => Ok(select(types, query)),
            },
        }
    }
}

proof fn lemma_filter_all<T>(s: Seq<T>, p: spec_fn(T) -> bool)
    requires
        forall|i: int| 0 <= i < s.len() ==> p(#[trigger] s[i]),
    ensures
        s.filter(p) == s,
    decreases s.len(),
{
    reveal(Seq::filter);
    if s.len() > 0 {
        lemma_filter_all(s.drop_last(), p);
        assert(p(s[s.len() - 1]));
        assert(s =~= s.drop_last().push(s.last()));
    }
}

proof fn lemma_filter_twice<T>(s: Seq<T>, p: spec_fn(T) -> bool, q: spec_fn(T) -> bool)
    ensures
        s.filter(p).filter(q) == s.filter(|t: T| p(t) && q(t)),
    decreases s.len(),
{
    reveal(Seq::filter);
    if s.len() > 0 {
        lemma_filter_twice(s.drop_last(), p, q);
        s.drop_last().filter(p).lemma_filter_push(s.last(), q);
    }
}

/// A query without criteria finds what no query finds: every type.
pub proof fn law_empty_query_finds_all(types: Seq<RegisteredType>, query: QueryRegisteredTypes)
    requires
        query.program_name is None,
        query.program is None,
        query.discriminant is None,
    ensures
        selected(types, Some(&query)) == selected(types, None),
{
    lemma_filter_all(types, |t: RegisteredType| query.admits(t));
}

/// A type is found exactly if it is registered and meets every criterion.
pub proof fn law_finds_exactly_the_admitted(
    types: Seq<RegisteredType>,
    query: QueryRegisteredTypes,
    t: RegisteredType,
)
    ensures
        selected(types, Some(&query)).contains(t) <==> types.contains(t) && query.admits(t),
{
    let p = |t: RegisteredType| query.admits(t);
    if selected(types, Some(&query)).contains(t) {
        types.lemma_filter_contains_rev(p, t);
        types.lemma_filter_pred(p, types.filter(p).index_of(t));
    }
    if types.contains(t) && query.admits(t) {
        types.lemma_filter_contains(p, types.index_of(t));
    }
}

/// The case of the letters in a query makes no difference.
pub proof fn law_case_makes_no_difference(
    types: Seq<RegisteredType>,
    a: QueryRegisteredTypes,
    b: QueryRegisteredTypes,
)
    requires
        a.program == b.program,
        a.program_name is Some == b.program_name is Some,
        a.program_name is Some ==> same_text(a.program_name->0@, b.program_name->0@),
        a.discriminant is Some == b.discriminant is Some,
        a.discriminant is Some ==> same_text(a.discriminant->0@, b.discriminant->0@),
    ensures
        selected(types, Some(&a)) == selected(types, Some(&b)),
{
    lemma_filters_agree(
        types,
        |t: RegisteredType| a.admits(t),
        |t: RegisteredType| b.admits(t),
    );
}

/// The criteria narrow a search one by one: a query finds what three queries
/// of one criterion each find, run one on the result of the other.
pub proof fn law_criteria_narrow_in_turn(
    types: Seq<RegisteredType>,
    query: QueryRegisteredTypes,
)
    ensures
        ({
            let by_name = QueryRegisteredTypes { program: None, discriminant: None, ..query };
            let by_program = QueryRegisteredTypes {
                program_name: None,
                discriminant: None,
                ..query
            };
            let by_discriminant = QueryRegisteredTypes {
                program_name: None,
                program: None,
                ..query
            };
            selected(types, Some(&query)) == selected(
                selected(selected(types, Some(&by_name)), Some(&by_program)),
                Some(&by_discriminant),
            )
        }),
{
    let by_name = QueryRegisteredTypes { program: None, discriminant: None, ..query };
    let by_program = QueryRegisteredTypes { program_name: None, discriminant: None, ..query };
    let by_discriminant = QueryRegisteredTypes { program_name: None, program: None, ..query };
    let n = |t: RegisteredType| by_name.admits(t);
    let p = |t: RegisteredType| by_program.admits(t);
    let d = |t: RegisteredType| by_discriminant.admits(t);
    let np = |t: RegisteredType| n(t) && p(t);
    lemma_filter_twice(types, n, p);
    lemma_filter_twice(types, np, d);
    lemma_filters_agree(
        types,
        |t: RegisteredType| query.admits(t),
        |t: RegisteredType| np(t) && d(t),
    );
}

/// Searching a search's result again with the same query changes nothing.
pub proof fn law_search_is_idempotent(types: Seq<RegisteredType>, query: QueryRegisteredTypes)
    ensures
        selected(selected(types, Some(&query)), Some(&query)) == selected(types, Some(&query)),
{
    let p = |t: RegisteredType| query.admits(t);
    lemma_filter_twice(types, p, p);
    lemma_filters_agree(types, p, |t: RegisteredType| p(t) && p(t));
}

/// A search takes any list and any query. It hands on the decoder's error, and
/// without a query the whole list.
pub proof fn law_search_takes_any_list<E>(
    types: Result<Vec<RegisteredType>, E>,
    query: Option<&QueryRegisteredTypes>,
    found: Result<Vec<RegisteredType>, E>,
)
    requires
        call_ensures(EpochClient::registered_types::<E>, (types, query), found),
    ensures
        call_requires(EpochClient::registered_types::<E>, (types, query)),
        types matches Err(e) ==> found == Err::<Vec<RegisteredType>, E>(e),
        types is Ok ==> found is Ok,
        types matches Ok(list) ==> query is None ==> found->Ok_0@ == list@,
{
}

/// A found type is on the list. Its texts have the lowercase of the texts asked
/// for, and its program is the program asked for in every byte.
pub proof fn law_found_types_are_as_asked<E>(
    types: Vec<RegisteredType>,
    query: QueryRegisteredTypes,
    found: Vec<RegisteredType>,
    t: RegisteredType,
)
    requires
        call_ensures(
            EpochClient::registered_types::<E>,
            (Ok::<Vec<RegisteredType>, E>(types), Some(&query)),
            Ok::<Vec<RegisteredType>, E>(found),
        ),
        found@.contains(t),
    ensures
        types@.contains(t),
        query.program_name matches Some(wanted) ==> lowercase(t.program_name@) == lowercase(
            wanted@,
        ),
        query.program matches Some(wanted) ==> forall|k: int|
            0 <= k < 32 ==> #[trigger] t.program.0[k] == wanted.0[k],
        query.discriminant matches Some(wanted) ==> lowercase(t.discriminant@) == lowercase(
            wanted@,
        ),
{
    law_finds_exactly_the_admitted(types@, query, t);
}

/// A listed type is found if its texts have the lowercase of the texts asked
/// for and its program is the program asked for in every byte.
pub proof fn law_types_as_asked_are_found<E>(
    types: Vec<RegisteredType>,
    query: QueryRegisteredTypes,
    found: Vec<RegisteredType>,
    t: RegisteredType,
)
    requires
        call_ensures(
            EpochClient::registered_types::<E>,
            (Ok::<Vec<RegisteredType>, E>(types), Some(&query)),
            Ok::<Vec<RegisteredType>, E>(found),
        ),
        types@.contains(t),
        query.program_name matches Some(wanted) ==> lowercase(t.program_name@) == lowercase(
            wanted@,
        ),
        query.program matches Some(wanted) ==> forall|k: int|
            0 <= k < 32 ==> #[trigger] t.program.0[k] == wanted.0[k],
        query.discriminant matches Some(wanted) ==> lowercase(t.discriminant@) == lowercase(
            wanted@,
        ),
    ensures
        found@.contains(t),
{
    if let Some(wanted) = query.program {
        assert(t.program.0 =~= wanted.0);
    }
    law_finds_exactly_the_admitted(types@, query, t);
}

/// Two characters are the same, or the same ASCII letter in its two cases.
pub open spec fn same_letter(a: char, b: char) -> bool {
    ||| a == b
    ||| 'A' <= a <= 'Z' && b as int == a as int + 32
    ||| 'A' <= b <= 'Z' && a as int == b as int + 32
}

/// Two texts are as long and hold the same letters, one by one.
pub open spec fn same_letters(a: Seq<char>, b: Seq<char>) -> bool {
    &&& a.len() == b.len()
    &&& forall|k: int| 0 <= k < a.len() ==> same_letter(#[trigger] a[k], b[k])
}

/// Every character of `text` is in the ASCII range.
pub open spec fn within_ascii(text: Seq<char>) -> bool {
    forall|k: int| 0 <= k < text.len() ==> 0 <= (#[trigger] text[k]) as int <= 127
}

proof fn lemma_within_ascii(text: Seq<char>)
    requires
        within_ascii(text),
    ensures
        is_ascii(text),
{
    assert forall|i: int| 0 <= i < text.len() implies (#[trigger] text[i] as u32) < 128 by {
        let c = text[i];
        assert(0 <= c as int <= 127);
    }
}

proof fn lemma_ascii_lowercase_agrees(a: Seq<char>, b: Seq<char>)
    requires
        within_ascii(a),
        within_ascii(b),
    ensures
        ascii_lowercase(a) == ascii_lowercase(b) <==> same_letters(a, b),
{
    let (low_a, low_b) = (ascii_lowercase(a), ascii_lowercase(b));
    if low_a == low_b {
        assert(low_a.len() == low_b.len());
        assert forall|k: int| 0 <= k < a.len() implies same_letter(#[trigger] a[k], b[k]) by {
            assert(low_a[k] == low_b[k]);
            assert(0 <= b[k] as int <= 127);
        }
    }
    if same_letters(a, b) {
        assert forall|k: int| 0 <= k < low_a.len() implies low_a[k] == low_b[k] by {
            assert(same_letter(a[k], b[k]));
            assert(0 <= b[k] as int <= 127);
        }
        assert(low_a =~= low_b);
    }
}

/// Of a listed type and a query in ASCII, the type is found exactly if each
/// text asked for is as long as the type's and has the same letters, in
/// whichever case, and the program asked for is the type's in every byte.
pub proof fn law_ascii_search_ignores_case_alone<E>(
    types: Vec<RegisteredType>,
    query: QueryRegisteredTypes,
    found: Vec<RegisteredType>,
    t: RegisteredType,
)
    requires
        call_ensures(
            EpochClient::registered_types::<E>,
            (Ok::<Vec<RegisteredType>, E>(types), Some(&query)),
            Ok::<Vec<RegisteredType>, E>(found),
        ),
        types@.contains(t),
        within_ascii(t.program_name@),
        within_ascii(t.discriminant@),
        query.program_name matches Some(wanted) ==> within_ascii(wanted@),
        query.discriminant matches Some(wanted) ==> within_ascii(wanted@),
    ensures
        found@.contains(t) <==> {
            &&& query.program_name matches Some(wanted) ==> same_letters(
                t.program_name@,
                wanted@,
            )
            &&& query.program matches Some(wanted) ==> forall|k: int|
                0 <= k < 32 ==> #[trigger] t.program.0[k] == wanted.0[k]
            &&& query.discriminant matches Some(wanted) ==> same_letters(
                t.discriminant@,
                wanted@,
            )
        },
{
    let i = types@.index_of(t);
    lemma_within_ascii(t.program_name@);
    lemma_within_ascii(t.discriminant@);
    assert(types@[i].is_ascii());
    if let Some(wanted) = query.program_name {
        lemma_within_ascii(wanted@);
    }
    if let Some(wanted) = query.discriminant {
        lemma_within_ascii(wanted@);
    }
    assert(query.is_ascii());
    law_finds_exactly_the_admitted(types@, query, t);
    if let Some(wanted) = query.program_name {
        lemma_ascii_lowercase_agrees(t.program_name@, wanted@);
    }
    if let Some(wanted) = query.program {
        assert((t.program.0 =~= wanted.0) <==> t.program == wanted);
    }
    if let Some(wanted) = query.discriminant {
        lemma_ascii_lowercase_agrees(t.discriminant@, wanted@);
    }
}

/// The found types stand in the order of the list, each as often as there, and
/// a type that is left out differs from the query in a text's lowercase or in
/// a byte of the program.
pub proof fn law_found_types_keep_their_places<E>(
    types: Vec<RegisteredType>,
    query: QueryRegisteredTypes,
    found: Vec<RegisteredType>,
)
    requires
        call_ensures(
            EpochClient::registered_types::<E>,
            (Ok::<Vec<RegisteredType>, E>(types), Some(&query)),
            Ok::<Vec<RegisteredType>, E>(found),
        ),
    ensures
        exists|at: Seq<int>|
            {
                &&& #[trigger] ascending(at, types@.len())
                &&& at.len() == found@.len()
                &&& forall|j: int| 0 <= j < at.len() ==> found@[j] == types@[#[trigger] at[j]]
                &&& forall|i: int|
                    0 <= i < types@.len() && !(#[trigger] at.contains(i)) ==> {
                        let t = types@[i];
                        ||| query.program_name matches Some(wanted) && lowercase(t.program_name@)
                            != lowercase(wanted@)
                        ||| query.program matches Some(wanted) && exists|k: int|
                            0 <= k < 32 && #[trigger] t.program.0[k] != wanted.0[k]
                        ||| query.discriminant matches Some(wanted) && lowercase(t.discriminant@)
                            != lowercase(wanted@)
                    }
            },
{
    let p = |t: RegisteredType| query.admits(t);
    let at = lemma_filter_positions(types@, p);
    assert(ascending(at, types@.len()));
    assert forall|i: int| 0 <= i < types@.len() && !(#[trigger] at.contains(i)) implies {
        let t = types@[i];
        ||| query.program_name matches Some(wanted) && lowercase(t.program_name@) != lowercase(
            wanted@,
        )
        ||| query.program matches Some(wanted) && exists|k: int|
            0 <= k < 32 && #[trigger] t.program.0[k] != wanted.0[k]
        ||| query.discriminant matches Some(wanted) && lowercase(t.discriminant@) != lowercase(
            wanted@,
        )
    } by {
        let t = types@[i];
        assert(!p(t));
        if let Some(wanted) = query.program {
            if forall|k: int| 0 <= k < 32 ==> #[trigger] t.program.0[k] == wanted.0[k] {
                assert(t.program.0 =~= wanted.0);
            }
        }
    }
}

/// An exact match takes any texts. It holds exactly if each criterion of the
/// query is what is handed in: texts character by character, the program byte
/// by byte.
pub proof fn law_exact_match_compares_all(
    query: QueryRegisteredTypes,
    program_name: String,
    program: Pubkey,
    discriminant: String,
    matched: bool,
)
    requires
        call_ensures(
            QueryRegisteredTypes::matches_exactly,
            (&query, &program_name, &program, &discriminant),
            matched,
        ),
    ensures
        call_requires(
            QueryRegisteredTypes::matches_exactly,
            (&query, &program_name, &program, &discriminant),
        ),
        matched <==> {
            &&& query.program_name matches Some(wanted) ==> {
                &&& program_name@.len() == wanted@.len()
                &&& forall|k: int| 0 <= k < wanted@.len() ==> #[trigger] program_name@[k] == wanted@[k]
            }
            &&& query.program matches Some(wanted) ==> forall|k: int|
                0 <= k < 32 ==> #[trigger] program.0[k] == wanted.0[k]
            &&& query.discriminant matches Some(wanted) ==> {
                &&& discriminant@.len() == wanted@.len()
                &&& forall|k: int| 0 <= k < wanted@.len() ==> #[trigger] discriminant@[k] == wanted@[k]
            }
        },
{
    if let Some(wanted) = query.program_name {
        assert((program_name@ =~= wanted@) <==> program_name@ == wanted@);
    }
    if let Some(wanted) = query.program {
        assert((program.0 =~= wanted.0) <==> program == wanted);
    }
    if let Some(wanted) = query.discriminant {
        assert((discriminant@ =~= wanted@) <==> discriminant@ == wanted@);
    }
}

/// Lowering a query keeps its program and which texts it has. Each text becomes
/// its lowercase, which of ASCII text has the same letters and none of `A` to
/// `Z`.
pub proof fn law_lowering_changes_case_alone(
    query: QueryRegisteredTypes,
    lower: QueryRegisteredTypes,
)
    requires
        call_ensures(QueryRegisteredTypes::lowered, (&query,), lower),
    ensures
        call_requires(QueryRegisteredTypes::lowered, (&query,)),
        lower.program == query.program,
        lower.program_name is Some <==> query.program_name is Some,
        query.program_name matches Some(text) ==> {
            let low = lower.program_name->0@;
            &&& low == lowercase(text@)
            &&& within_ascii(text@) ==> same_letters(low, text@) && forall|k: int|
                0 <= k < low.len() ==> !('A' <= #[trigger] low[k] <= 'Z')
        },
        lower.discriminant is Some <==> query.discriminant is Some,
        query.discriminant matches Some(text) ==> {
            let low = lower.discriminant->0@;
            &&& low == lowercase(text@)
            &&& within_ascii(text@) ==> same_letters(low, text@) && forall|k: int|
                0 <= k < low.len() ==> !('A' <= #[trigger] low[k] <= 'Z')
        },
{
    if let Some(text) = query.program_name {
        lemma_ascii_lowercase_letters(text@);
    }
    if let Some(text) = query.discriminant {
        lemma_ascii_lowercase_letters(text@);
    }
}

proof fn lemma_ascii_lowercase_letters(text: Seq<char>)
    ensures
        within_ascii(text) ==> is_ascii(text) && same_letters(ascii_lowercase(text), text),
        forall|k: int|
            0 <= k < text.len() && within_ascii(text) ==> !('A' <= #[trigger] ascii_lowercase(
                text,
            )[k] <= 'Z'),
{
    if within_ascii(text) {
        lemma_within_ascii(text);
        assert forall|k: int| 0 <= k < text.len() implies {
            let low = #[trigger] ascii_lowercase(text)[k];
            same_letter(low, text[k]) && !('A' <= low <= 'Z')
        } by {
            assert(0 <= text[k] as int <= 127);
        }
    }
}

} // verus!
