//! People: the request to register one, its validation, and the JSON text
//! of a stored person.

use vstd::prelude::*;
use vstd::string::{StringExecFns, StringSliceAdditionalSpecFns};
use vstd::utf8::encode_utf8;
use crate::date::{is_date_valid, valid_date};
use crate::ids::{id_text, new_person_id, uuid_text, uuid_variant, uuid_version};
use crate::json::{json_string, json_string_array, json_string_text, string_array_text};

verus! {

/// The body of a request to register a person.
pub struct CreatePerson {
    pub apelido: String,
    pub nome: String,
    pub nascimento: String,
    pub stack: Option<Vec<String>>,
}

/// A stored person.
pub struct Person {
    pub id: u128,
    pub apelido: String,
    pub nome: String,
    pub nascimento: String,
    pub stack: Option<Vec<String>>,
}

/// The values of a new row: an absent stack is stored as an empty one.
pub struct NewPerson {
    pub id: u128,
    pub apelido: String,
    pub nome: String,
    pub nascimento: String,
    pub stack: Vec<String>,
}

/// Why a registration request is refused.
#[derive(PartialEq, Eq, Structural, Debug, Clone, Copy)]
pub enum CreateError {
    /// An empty nickname or name, or a birth date that is not a valid date.
    InvalidFields,
    /// A nickname over 32 bytes or a name over 100 bytes.
    FieldTooLong,
    /// A stack entry over 32 bytes.
    StackItemTooLong,
}

pub open spec fn strings_view(v: Seq<String>) -> Seq<Seq<char>> {
    v.map_values(|s: String| s@)
}

pub open spec fn stack_view(stack: Option<Vec<String>>) -> Option<Seq<Seq<char>>> {
    match stack {
        Some(v) => Some(strings_view(v@)),
        None => None,
    }
}

/// Length of a text in UTF-8 bytes.
pub open spec fn byte_len(s: Seq<char>) -> int {
    encode_utf8(s).len() as int
}

/// Whether some entry is over 32 bytes.
pub open spec fn has_long_item(items: Seq<Seq<char>>) -> bool {
    exists|i: int| 0 <= i < items.len() && byte_len(#[trigger] items[i]) > 32
}

/// Whether the stack is given and has an entry over 32 bytes.
pub open spec fn stack_has_long_item(stack: Option<Seq<Seq<char>>>) -> bool {
    match stack {
        Some(items) => has_long_item(items),
        None => false,
    }
}

/// The verdict on a registration request.
pub open spec fn check_create(
    apelido: Seq<char>,
    nome: Seq<char>,
    nascimento: Seq<char>,
    stack: Option<Seq<Seq<char>>>,
) -> Result<(), CreateError> {
    if apelido.len() == 0 || nome.len() == 0 || !valid_date(encode_utf8(nascimento)) {
        Err(CreateError::InvalidFields)
    } else if byte_len(apelido) > 32 || byte_len(nome) > 100 {
        Err(CreateError::FieldTooLong)
    } else if stack_has_long_item(stack) {
        Err(CreateError::StackItemTooLong)
    } else {
        Ok(())
    }
}

impl CreatePerson {
    pub open spec fn verdict(&self) -> Result<(), CreateError> {
        check_create(self.apelido@, self.nome@, self.nascimento@, stack_view(self.stack))
    }
}

fn byte_count(s: &String) -> (n: usize)
    ensures
        n == byte_len(s@),
{
    s.as_str().as_bytes().len()
}

/// Checks a registration request field by field.
#[verifier::loop_isolation(false)]
pub fn validate(input: &CreatePerson) -> (r: Result<(), CreateError>)
    ensures
        r == input.verdict(),
{
    if input.apelido.as_str().is_empty() || input.nome.as_str().is_empty() || !is_date_valid(
        input.nascimento.as_str(),
    ) {
        return Err(CreateError::InvalidFields);
    }
    if byte_count(&input.apelido) > 32 || byte_count(&input.nome) > 100 {
        return Err(CreateError::FieldTooLong);
    }
    match &input.stack {
        Some(items) => {
            let mut i: usize = 0;
            while i < items.len()
                invariant
                    i <= items@.len(),
                    forall|j: int| 0 <= j < i ==> byte_len(#[trigger] items@[j]@) <= 32,
                decreases items@.len() - i,
            {
                if byte_count(&items[i]) > 32 {
                    assert(i < strings_view(items@).len());
                    assert(byte_len(strings_view(items@)[i as int]) > 32);
                    return Err(CreateError::StackItemTooLong);
                }
                i = i + 1;
            }
            assert forall|j: int| 0 <= j < items@.len() implies byte_len(
                #[trigger] strings_view(items@)[j],
            ) <= 32 by {
                assert(byte_len(items@[j]@) <= 32);
            }
        },
        None => {},
    }
    Ok(())
}

fn clone_strings(v: &Vec<String>) -> (c: Vec<String>)
    ensures
        c@ == v@,
{
    let mut c: Vec<String> = Vec::new();
    let mut i: usize = 0;
    while i < v.len()
        invariant
            i <= v@.len(),
            c@ == v@.take(i as int),
        decreases v@.len() - i,
    {
        c.push(v[i].clone());
        assert(c@ =~= v@.take(i + 1));
        i = i + 1;
    }
    assert(v@.take(i as int) =~= v@);
    c
}

/// A valid request becomes the row to insert, under a freshly generated
/// version 7 identifier; an absent stack is stored as an empty one.
pub fn new_person(input: &CreatePerson) -> (r: Result<NewPerson, CreateError>)
    ensures
        match r {
            Ok(p) => {
                &&& input.verdict() is Ok
                &&& uuid_version(p.id) == 7
                &&& uuid_variant(p.id) == 2
                &&& p.apelido@ == input.apelido@
                &&& p.nome@ == input.nome@
                &&& p.nascimento@ == input.nascimento@
                &&& p.stack@ == match input.stack {
                    Some(v) => v@,
                    None => Seq::empty(),
                }
            },
            Err(e) => input.verdict() == Err::<(), CreateError>(e),
        },
{
    match validate(input) {
        Err(e) => Err(e),
        Ok(()) => {
            let id = new_person_id();
            let stack = match &input.stack {
                Some(v) => clone_strings(v),
                None => Vec::new(),
            };
            Ok(
                NewPerson {
                    id,
                    apelido: input.apelido.clone(),
                    nome: input.nome.clone(),
                    nascimento: input.nascimento.clone(),
                    stack,
                },
            )
        },
    }
}

/// The JSON object for a person: fields in declaration order, the stack
/// left out when absent.
pub open spec fn person_text(
    id: u128,
    apelido: Seq<char>,
    nome: Seq<char>,
    nascimento: Seq<char>,
    stack: Option<Seq<Seq<char>>>,
) -> Seq<char> {
    "{\"id\":"@ + json_string_text(uuid_text(id)) + ",\"apelido\":"@ + json_string_text(apelido)
        + ",\"nome\":"@ + json_string_text(nome) + ",\"nascimento\":"@ + json_string_text(
        nascimento,
    ) + match stack {
        Some(items) => ",\"stack\":"@ + string_array_text(items),
        None => Seq::empty(),
    } + "}"@
}

impl Person {
    pub open spec fn json_text(&self) -> Seq<char> {
        person_text(self.id, self.apelido@, self.nome@, self.nascimento@, stack_view(self.stack))
    }
}

/// The JSON text of a person.
pub fn person_json(p: &Person) -> (t: String)
    ensures
        t@ == p.json_text(),
{
    let mut t = String::from_str("{\"id\":");
    let id = id_text(p.id);
    t.append(json_string(id.as_str()).as_str());
    t.append(",\"apelido\":");
    t.append(json_string(p.apelido.as_str()).as_str());
    t.append(",\"nome\":");
    t.append(json_string(p.nome.as_str()).as_str());
    t.append(",\"nascimento\":");
    t.append(json_string(p.nascimento.as_str()).as_str());
    match &p.stack {
        Some(items) => {
            t.append(",\"stack\":");
            t.append(json_string_array(items).as_str());
        },
        None => {},
    }
    t.append("}");
    assert(t@ =~= p.json_text());
    t
}

/// A stack entry over 32 bytes, at whatever position it stands, makes a
/// request with a valid nickname, name and date refused as such; and any
/// over-long entry keeps the request from being accepted.
pub proof fn law_long_stack_entry_refused(
    apelido: Seq<char>,
    nome: Seq<char>,
    nascimento: Seq<char>,
    items: Seq<Seq<char>>,
    i: int,
)
    requires
        0 <= i < items.len(),
        encode_utf8(items[i]).len() > 32,
    ensures
        check_create(apelido, nome, nascimento, Some(items)) != Ok::<(), CreateError>(()),
        apelido.len() > 0 && nome.len() > 0 && valid_date(encode_utf8(nascimento))
            && encode_utf8(apelido).len() <= 32 && encode_utf8(nome).len() <= 100
            ==> check_create(apelido, nome, nascimento, Some(items)) == Err::<(), CreateError>(
            CreateError::StackItemTooLong,
        ),
{
    assert(byte_len(items[i]) > 32);
}

/// A request is accepted exactly when the nickname and name are not empty,
/// the birth date is valid, the nickname is at most 32 bytes, the name at
/// most 100 bytes, and every stack entry (if a stack is given) at most 32
/// bytes.
pub proof fn law_accepted_exactly(
    apelido: Seq<char>,
    nome: Seq<char>,
    nascimento: Seq<char>,
    stack: Option<Seq<Seq<char>>>,
)
    ensures
        (check_create(apelido, nome, nascimento, stack) == Ok::<(), CreateError>(())) <==> (
        apelido.len() > 0 && nome.len() > 0 && valid_date(encode_utf8(nascimento))
            && encode_utf8(apelido).len() <= 32 && encode_utf8(nome).len() <= 100 && match stack {
            Some(items) => forall|k: int|
                0 <= k < items.len() ==> encode_utf8(#[trigger] items[k]).len() <= 32,
            None => true,
        }),
{
    match stack {
        Some(items) => {
            if !has_long_item(items) {
                assert forall|k: int| 0 <= k < items.len() implies encode_utf8(
                    #[trigger] items[k],
                ).len() <= 32 by {
                    if encode_utf8(items[k]).len() > 32 {
                        assert(byte_len(items[k]) > 32);
                    }
                }
            }
        },
        None => {},
    }
}

/// What `validate` returns for a request: the stack is checked in full.
pub proof fn law_validate_refuses_any_long_entry(input: CreatePerson, i: int)
    requires
        input.stack is Some,
        0 <= i < input.stack->0@.len(),
        encode_utf8(input.stack->0@[i]@).len() > 32,
    ensures
        input.verdict() != Ok::<(), CreateError>(()),
{
    let items = strings_view(input.stack->0@);
    assert(items[i] == input.stack->0@[i]@);
    law_long_stack_entry_refused(input.apelido@, input.nome@, input.nascimento@, items, i);
}

} // verus!
