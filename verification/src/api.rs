//! Routing of requests and the replies of each route.

use vstd::prelude::*;
use vstd::string::StringExecFns;
use crate::ids::{hex_number, hyphenated_digits, id_text, is_hyphenated_uuid, law_id_text_roundtrip, uuid_text};
use vstd::utf8::encode_utf8;
use crate::json::{array_text, comma_joined, decimal_text, json_integer, json_string, json_string_text, read_integer, law_decimal_reads_back, string_array_text};
use crate::person::{CreateError, CreatePerson, NewPerson, Person, new_person, person_json, person_text};
use crate::query::{query_params, url_params};
use crate::text::{chars_of, chars_start_with, same_chars, string_from};

verus! {

pub const OK: u16 = 200;

pub const CREATED: u16 = 201;

pub const BAD_REQUEST: u16 = 400;

pub const NOT_FOUND: u16 = 404;

pub const UNPROCESSABLE_ENTITY: u16 = 422;

/// An HTTP reply: status, body, whether the body is JSON (sent with
/// `Content-Type: application/json`) and an optional `Location`.
pub struct Reply {
    pub status: u16,
    pub body: String,
    pub json: bool,
    pub location: Option<String>,
}

pub struct ReplyView {
    pub status: u16,
    pub body: Seq<char>,
    pub json: bool,
    pub location: Option<Seq<char>>,
}

impl View for Reply {
    type V = ReplyView;

    open spec fn view(&self) -> ReplyView {
        ReplyView {
            status: self.status,
            body: self.body@,
            json: self.json,
            location: match self.location {
                Some(l) => Some(l@),
                None => None,
            },
        }
    }
}

pub open spec fn json_view(status: u16, body: Seq<char>) -> ReplyView {
    ReplyView { status, body, json: true, location: None }
}

/// The body `{"message": ...}` of an error reply.
pub open spec fn error_text(msg: Seq<char>) -> Seq<char> {
    "{\"message\":"@ + json_string_text(msg) + "}"@
}

pub open spec fn error_view(status: u16, msg: Seq<char>) -> ReplyView {
    json_view(status, error_text(msg))
}

/// A reply with an empty body and no content type.
pub fn empty_reply(status: u16) -> (r: Reply)
    ensures
        r@ == (ReplyView { status, body: Seq::empty(), json: false, location: None }),
{
    Reply { status, body: String::new(), json: false, location: None }
}

/// A reply whose body is the given JSON text.
pub fn json_reply(status: u16, body: String) -> (r: Reply)
    ensures
        r@ == json_view(status, body@),
{
    Reply { status, body, json: true, location: None }
}

/// A JSON reply `{"message": msg}`.
pub fn error_reply(status: u16, msg: &str) -> (r: Reply)
    ensures
        r@ == error_view(status, msg@),
{
    let mut body = String::from_str("{\"message\":");
    body.append(json_string(msg).as_str());
    body.append("}");
    json_reply(status, body)
}

/// The request methods that the routes tell apart.
#[derive(PartialEq, Eq, Structural, Debug, Clone, Copy)]
pub enum HttpMethod {
    Get,
    Post,
    Other,
}

/// What a request asks for.
pub enum Route {
    HealthCheck,
    CreatePerson,
    /// The path segment after `/pessoas/`.
    GetPerson(String),
    /// The search term, the `t` parameter of the query.
    SearchPeople(String),
    MissingTerm,
    CountPeople,
    NotFound,
}

pub enum RouteTarget {
    HealthCheck,
    CreatePerson,
    GetPerson(Seq<char>),
    SearchPeople(Seq<char>),
    MissingTerm,
    CountPeople,
    NotFound,
}

impl View for Route {
    type V = RouteTarget;

    open spec fn view(&self) -> RouteTarget {
        match self {
            Route::HealthCheck => RouteTarget::HealthCheck,
            Route::CreatePerson => RouteTarget::CreatePerson,
            Route::GetPerson(s) => RouteTarget::GetPerson(s@),
            Route::SearchPeople(s) => RouteTarget::SearchPeople(s@),
            Route::MissingTerm => RouteTarget::MissingTerm,
            Route::CountPeople => RouteTarget::CountPeople,
            Route::NotFound => RouteTarget::NotFound,
        }
    }
}

/// The route table, tried in order.
pub open spec fn route_target(method: HttpMethod, path: Seq<char>, query: Seq<char>) -> RouteTarget {
    if method == HttpMethod::Get && path == "/health-check"@ {
        RouteTarget::HealthCheck
    } else if method == HttpMethod::Post && path == "/pessoas"@ {
        RouteTarget::CreatePerson
    } else if method == HttpMethod::Get && "/pessoas/"@.is_prefix_of(path) {
        RouteTarget::GetPerson(path.skip("/pessoas/"@.len() as int))
    } else if method == HttpMethod::Get && path == "/pessoas"@ {
        if query_params(query).contains_key("t"@) {
            RouteTarget::SearchPeople(query_params(query)["t"@])
        } else {
            RouteTarget::MissingTerm
        }
    } else if method == HttpMethod::Get && path == "/contagem-pessoas"@ {
        RouteTarget::CountPeople
    } else {
        RouteTarget::NotFound
    }
}

/// Decides which route serves a request with this method, path and query.
pub fn route(method: HttpMethod, path: &str, query: &str) -> (r: Route)
    ensures
        r@ == route_target(method, path@, query@),
{
    let p = chars_of(path);
    if method == HttpMethod::Get && same_chars(&p, &chars_of("/health-check")) {
        return Route::HealthCheck;
    }
    if method == HttpMethod::Post && same_chars(&p, &chars_of("/pessoas")) {
        return Route::CreatePerson;
    }
    let prefix = chars_of("/pessoas/");
    if method == HttpMethod::Get && chars_start_with(&p, &prefix) {
        let id = string_from(&p, prefix.len(), p.len());
        assert(id@ =~= path@.skip("/pessoas/"@.len() as int));
        return Route::GetPerson(id);
    }
    if method == HttpMethod::Get && same_chars(&p, &chars_of("/pessoas")) {
        let params = url_params(query);
        let ghost pv = params@.map_values(|v: String| v@);
        return match params.get("t") {
            Some(term) => {
                proof {
                    assert(pv.contains_key("t"@));
                    assert(pv["t"@] == term@);
                }
                Route::SearchPeople(term.clone())
            },
            None => {
                assert(!pv.contains_key("t"@));
                Route::MissingTerm
            },
        };
    }
    if method == HttpMethod::Get && same_chars(&p, &chars_of("/contagem-pessoas")) {
        return Route::CountPeople;
    }
    Route::NotFound
}

/// `GET /health-check`: an empty 200.
pub fn health_check_reply() -> (r: Reply)
    ensures
        r@ == (ReplyView { status: OK, body: Seq::empty(), json: false, location: None }),
{
    empty_reply(OK)
}

/// `GET /pessoas` without a term.
pub fn missing_term_reply() -> (r: Reply)
    ensures
        r@ == error_view(BAD_REQUEST, "Missing term"@),
{
    error_reply(BAD_REQUEST, "Missing term")
}

/// Any request that no route serves.
pub fn route_not_found_reply() -> (r: Reply)
    ensures
        r@ == error_view(NOT_FOUND, "Route not found"@),
{
    error_reply(NOT_FOUND, "Route not found")
}

/// The message of a refused registration.
pub open spec fn create_error_message(e: CreateError) -> Seq<char> {
    match e {
        CreateError::InvalidFields => "Invalid fields"@,
        CreateError::FieldTooLong => "Field too long"@,
        CreateError::StackItemTooLong => "Stack item too long"@,
    }
}

/// The reply to a refused registration.
pub fn create_error_reply(e: CreateError) -> (r: Reply)
    ensures
        r@ == error_view(UNPROCESSABLE_ENTITY, create_error_message(e)),
{
    match e {
        CreateError::InvalidFields => error_reply(UNPROCESSABLE_ENTITY, "Invalid fields"),
        CreateError::FieldTooLong => error_reply(UNPROCESSABLE_ENTITY, "Field too long"),
        CreateError::StackItemTooLong => error_reply(UNPROCESSABLE_ENTITY, "Stack item too long"),
    }
}

/// First half of `POST /pessoas`: the body as parsed (`None` when it is
/// not a JSON registration request) becomes the row to insert, or the
/// reply that refuses it.
pub fn prepare_create(parsed: Option<CreatePerson>) -> (r: Result<NewPerson, Reply>)
    ensures
        match parsed {
            None => r matches Err(reply) && reply@ == error_view(BAD_REQUEST, "Invalid JSON"@),
            Some(input) => match input.verdict() {
                Err(e) => r matches Err(reply) && reply@ == error_view(
                    UNPROCESSABLE_ENTITY,
                    create_error_message(e),
                ),
                Ok(()) => r matches Ok(p) && {
                    &&& crate::ids::uuid_version(p.id) == 7
                    &&& crate::ids::uuid_variant(p.id) == 2
                    &&& p.apelido@ == input.apelido@
                    &&& p.nome@ == input.nome@
                    &&& p.nascimento@ == input.nascimento@
                    &&& p.stack@ == match input.stack {
                        Some(v) => v@,
                        None => Seq::empty(),
                    }
                },
            },
        },
{
    match parsed {
        None => Err(error_reply(BAD_REQUEST, "Invalid JSON")),
        Some(input) => match new_person(&input) {
            Ok(p) => Ok(p),
            Err(e) => Err(create_error_reply(e)),
        },
    }
}

/// The body `{"id": ...}` of a created person.
pub open spec fn created_text(id: u128) -> Seq<char> {
    "{\"id\":"@ + json_string_text(uuid_text(id)) + "}"@
}

/// Second half of `POST /pessoas`: the outcome of the insert (the number
/// of rows inserted, or the database error's text) becomes the reply.
/// No row inserted means the nickname is taken.
pub fn finish_create(id: u128, outcome: Result<u64, String>) -> (r: Reply)
    ensures
        r@ == match outcome {
            Ok(n) => if n > 0 {
                ReplyView {
                    status: CREATED,
                    body: created_text(id),
                    json: true,
                    location: Some("/pessoas/"@ + uuid_text(id)),
                }
            } else {
                error_view(UNPROCESSABLE_ENTITY, "Conflict"@)
            },
            Err(e) => error_view(UNPROCESSABLE_ENTITY, "DB error: "@ + e@),
        },
{
    match outcome {
        Ok(n) => if n > 0 {
            let text = id_text(id);
            let mut body = String::from_str("{\"id\":");
            body.append(json_string(text.as_str()).as_str());
            body.append("}");
            let mut location = String::from_str("/pessoas/");
            location.append(text.as_str());
            Reply { status: CREATED, body, json: true, location: Some(location) }
        } else {
            error_reply(UNPROCESSABLE_ENTITY, "Conflict")
        },
        Err(e) => {
            let mut msg = String::from_str("DB error: ");
            msg.append(e.as_str());
            error_reply(UNPROCESSABLE_ENTITY, msg.as_str())
        },
    }
}

/// `GET /pessoas/{id}`: the person found, or 404.
pub fn person_reply(found: Option<Person>) -> (r: Reply)
    ensures
        r@ == match found {
            Some(p) => json_view(OK, p.json_text()),
            None => error_view(NOT_FOUND, "Not found"@),
        },
{
    match found {
        Some(p) => json_reply(OK, person_json(&p)),
        None => error_reply(NOT_FOUND, "Not found"),
    }
}

/// The `LIKE` pattern that finds `term` anywhere.
pub fn search_pattern(term: &str) -> (p: String)
    ensures
        p@ == seq!['%'] + term@ + seq!['%'],
{
    let mut p = String::from_str("%");
    p.append(term);
    p.append("%");
    proof {
        reveal_strlit("%");
    }
    p
}

pub open spec fn people_text(people: Seq<Person>) -> Seq<char> {
    array_text(people.map_values(|p: Person| p.json_text()))
}

/// `GET /pessoas?t=...`: the people found, as a JSON array.
pub fn search_reply(people: &Vec<Person>) -> (r: Reply)
    ensures
        r@ == json_view(OK, people_text(people@)),
{
    let ghost texts = people@.map_values(|p: Person| p.json_text());
    let mut body = String::from_str("[");
    let mut i: usize = 0;
    proof {
        reveal_strlit("[");
        reveal_strlit("]");
        reveal_strlit(",");
        assert(texts.take(0) =~= Seq::<Seq<char>>::empty());
    }
    while i < people.len()
        invariant
            i <= people@.len(),
            texts == people@.map_values(|p: Person| p.json_text()),
            body@ == seq!['['] + crate::json::comma_joined(texts.take(i as int)),
            ","@ == seq![','],
        decreases people@.len() - i,
    {
        if i > 0 {
            body.append(",");
        }
        body.append(person_json(&people[i]).as_str());
        assert(texts.take(i + 1).drop_last() =~= texts.take(i as int));
        assert(body@ =~= seq!['['] + crate::json::comma_joined(texts.take(i + 1)));
        i = i + 1;
    }
    body.append("]");
    assert(texts.take(i as int) =~= texts);
    assert(body@ =~= people_text(people@));
    json_reply(OK, body)
}

/// The body `{"count": n}`.
pub open spec fn count_text(n: int) -> Seq<char> {
    "{\"count\":"@ + decimal_text(n) + "}"@
}

/// `GET /contagem-pessoas`: the number of people.
pub fn count_reply(count: i64) -> (r: Reply)
    ensures
        r@ == json_view(OK, count_text(count as int)),
{
    let mut body = String::from_str("{\"count\":");
    body.append(json_integer(count as i128).as_str());
    body.append("}");
    json_reply(OK, body)
}

/// The `Location` of a created person is a path that routes, whatever the
/// query, to the lookup of a segment that names that very identifier.
pub proof fn law_location_finds_person(id: u128, query: Seq<char>)
    ensures
        route_target(HttpMethod::Get, "/pessoas/"@ + uuid_text(id), query)
            == RouteTarget::GetPerson(uuid_text(id)),
        is_hyphenated_uuid(encode_utf8(uuid_text(id))),
        hex_number(hyphenated_digits(encode_utf8(uuid_text(id)))) == id,
{
    let prefix = "/pessoas/"@;
    let path = prefix + uuid_text(id);
    reveal_strlit("/pessoas/");
    reveal_strlit("/health-check");
    assert(path.len() == 45);
    assert(path != "/health-check"@) by {
        assert("/health-check"@.len() == 13);
    }
    assert(prefix.is_prefix_of(path)) by {
        assert(path.subrange(0, prefix.len() as int) =~= prefix);
    }
    assert(path.skip(prefix.len() as int) =~= uuid_text(id));
    law_id_text_roundtrip(id);
}

/// The count reply holds the count itself: its body is `{"count":`, then a
/// number that reads back as exactly `n`, then `}`.
pub proof fn law_count_body_holds_count(n: i64)
    ensures
        count_text(n as int).len() >= 11,
        count_text(n as int).take(9) == "{\"count\":"@,
        count_text(n as int).last() == '}',
        read_integer(count_text(n as int).subrange(9, count_text(n as int).len() - 1)) == Some(
            n as int,
        ),
{
    reveal_strlit("{\"count\":");
    reveal_strlit("}");
    let t = count_text(n as int);
    let d = decimal_text(n as int);
    law_decimal_reads_back(n as int);
    assert(d.len() >= 1);
    assert(t.take(9) =~= "{\"count\":"@);
    assert(t.subrange(9, t.len() - 1) =~= d);
}

/// The search reply lists the people in order, each written exactly as
/// the lookup of that one person writes it: no people gives `[]`, and
/// one more person adds a comma and that person's own JSON before the
/// closing bracket.
pub proof fn law_search_lists_each_person(people: Seq<Person>, p: Person)
    ensures
        people_text(Seq::empty()) == seq!['[', ']'],
        people_text(seq![p]) == seq!['['] + p.json_text() + seq![']'],
        people.len() > 0 ==> people_text(people.push(p)) == people_text(people).drop_last()
            + seq![','] + p.json_text() + seq![']'],
{
    let f = |q: Person| q.json_text();
    assert(Seq::<Person>::empty().map_values(f) =~= Seq::<Seq<char>>::empty());
    assert(seq![p].map_values(f) =~= seq![p.json_text()]);
    assert(array_text(seq![p.json_text()]) =~= seq!['['] + p.json_text() + seq![']']);
    if people.len() > 0 {
        let a = people.map_values(f);
        let b = people.push(p).map_values(f);
        assert(b =~= a.push(p.json_text()));
        assert(b.drop_last() =~= a);
        assert(people_text(people).drop_last() =~= seq!['['] + comma_joined(a));
        assert(people_text(people.push(p)) =~= seq!['['] + comma_joined(a) + seq![','] + p.json_text() + seq![']']);
    }
}

/// A stored stack is part of a person's JSON: the text of a person with a
/// stack is the text of the same person without one, with `"stack"` and
/// the array of entries added before the closing brace.
pub proof fn law_person_json_keeps_stack(
    id: u128,
    apelido: Seq<char>,
    nome: Seq<char>,
    nascimento: Seq<char>,
    items: Seq<Seq<char>>,
)
    ensures
        person_text(id, apelido, nome, nascimento, Some(items)) == person_text(
            id,
            apelido,
            nome,
            nascimento,
            None,
        ).drop_last() + ",\"stack\":"@ + string_array_text(items) + seq!['}'],
{
    reveal_strlit("}");
    let without = person_text(id, apelido, nome, nascimento, None);
    assert(without.drop_last() =~= "{\"id\":"@ + json_string_text(uuid_text(id)) + ",\"apelido\":"@
        + json_string_text(apelido) + ",\"nome\":"@ + json_string_text(nome) + ",\"nascimento\":"@
        + json_string_text(nascimento));
    assert(person_text(id, apelido, nome, nascimento, Some(items)) =~= without.drop_last()
        + ",\"stack\":"@ + string_array_text(items) + seq!['}']);
}

} // verus!
