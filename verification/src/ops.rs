//! The four operation builders.  Each owns a fixed GraphQL document and
//! the rule that maps caller-supplied fields into the variables mapping:
//! an optional field the caller did not give is omitted entirely, never
//! sent as null.

use vstd::prelude::*;
use crate::json::{Json, JsonV};
use crate::vars::{Scalar, ScalarV, Variables};

verus! {

/// An immutable operation: a document and the variables bound into it.
#[derive(Debug)]
pub struct Operation {
    pub document: String,
    pub variables: Variables,
}

/// The read document: one key, selected by id and key type.
pub open spec fn query_document_text() -> Seq<char> {
    "query($id: ID!, $keyType: ApiAccessKeyType!) { actor { apiAccess { key(id: $id, keyType: $keyType) { key name notes type } } } }"@
}

/// The create document.  Its `accountId` variable is declared as an
/// integer, yet the builder binds a string and relies on the remote
/// schema coercing it, as callers of this client always have.
pub open spec fn create_document_text() -> Seq<char> {
    "mutation($accountId: Int!, $keyType: ApiAccessKeyType!, $name: String!, $notes: String) { apiAccessCreateKeys(keys: [{accountId: $accountId, keyType: $keyType, name: $name, notes: $notes}]) { createdKeys { id name type key notes } errors { message type } } }"@
}

/// The update document.
pub open spec fn update_document_text() -> Seq<char> {
    "mutation($keyId: String!, $name: String, $notes: String) { apiAccessUpdateKeys(keys: [{id: $keyId, name: $name, notes: $notes}]) { updatedKeys { id name type notes } errors { message type } } }"@
}

/// The delete document.  Its `ingestKeyIds` argument is list-typed, yet
/// the builder binds the single id the caller gives, relying on the
/// remote schema accepting the singleton form.
pub open spec fn delete_document_text() -> Seq<char> {
    "mutation($keyId: String!) { apiAccessDeleteKeys(keys: {ingestKeyIds: $keyId}) { deletedKeys { id } errors { message type } } }"@
}

/// The read operation.  The filter variables are bound only when the
/// caller gave both the key id and the key type; with either missing the
/// operation is issued with an empty mapping and the remote side is left
/// to reject or ignore the incomplete filter.
pub fn query_api_keys(key_type: Option<String>, key_id: Option<String>) -> (op: Operation)
    ensures
        op.document@ == query_document_text(),
        match (key_id, key_type) {
            (Some(id), Some(t)) => op.variables@ == seq![
                ("id"@, ScalarV::Str(id@)),
                ("keyType"@, ScalarV::Str(t@)),
            ],
            _ => op.variables@ == Seq::<(Seq<char>, ScalarV)>::empty(),
        },
{
    let mut variables = Variables::new();
    match (key_id, key_type) {
        (Some(id), Some(t)) => {
            variables.push("id".to_owned(), Scalar::Str(id));
            variables.push("keyType".to_owned(), Scalar::Str(t));
            proof {
                assert(variables@ =~= seq![
                    ("id"@, ScalarV::Str(id@)),
                    ("keyType"@, ScalarV::Str(t@)),
                ]);
            }
        },
        _ => {},
    }
    Operation { document: "query($id: ID!, $keyType: ApiAccessKeyType!) { actor { apiAccess { key(id: $id, keyType: $keyType) { key name notes type } } } }".to_owned(), variables }
}

/// The create operation: account id, key type and name are required;
/// notes are bound only when given.
pub fn create_api_key(account_id: String, key_type: String, name: String, notes: Option<String>)
    -> (op: Operation)
    ensures
        op.document@ == create_document_text(),
        ({
            let base = seq![
                ("accountId"@, ScalarV::Str(account_id@)),
                ("keyType"@, ScalarV::Str(key_type@)),
                ("name"@, ScalarV::Str(name@)),
            ];
            match notes {
                Some(n) => op.variables@ == base.push(("notes"@, ScalarV::Str(n@))),
                None => op.variables@ == base,
            }
        }),
{
    let mut variables = Variables::new();
    variables.push("accountId".to_owned(), Scalar::Str(account_id));
    variables.push("keyType".to_owned(), Scalar::Str(key_type));
    variables.push("name".to_owned(), Scalar::Str(name));
    proof {
        assert(variables@ =~= seq![
            ("accountId"@, ScalarV::Str(account_id@)),
            ("keyType"@, ScalarV::Str(key_type@)),
            ("name"@, ScalarV::Str(name@)),
        ]);
    }
    match notes {
        Some(n) => {
            variables.push("notes".to_owned(), Scalar::Str(n));
        },
        None => {},
    }
    Operation { document: "mutation($accountId: Int!, $keyType: ApiAccessKeyType!, $name: String!, $notes: String) { apiAccessCreateKeys(keys: [{accountId: $accountId, keyType: $keyType, name: $name, notes: $notes}]) { createdKeys { id name type key notes } errors { message type } } }".to_owned(), variables }
}

/// The update operation: the key id is required; name and notes are each
/// bound only when the caller supplied a new value, so an omitted field
/// is left unchanged remotely.
pub fn update_api_key(key_id: String, name: Option<String>, notes: Option<String>) -> (op:
    Operation)
    ensures
        op.document@ == update_document_text(),
        ({
            let base = seq![("keyId"@, ScalarV::Str(key_id@))];
            let with_name = match name {
                Some(n) => base.push(("name"@, ScalarV::Str(n@))),
                None => base,
            };
            match notes {
                Some(n) => op.variables@ == with_name.push(("notes"@, ScalarV::Str(n@))),
                None => op.variables@ == with_name,
            }
        }),
{
    let mut variables = Variables::new();
    variables.push("keyId".to_owned(), Scalar::Str(key_id));
    proof {
        assert(variables@ =~= seq![("keyId"@, ScalarV::Str(key_id@))]);
    }
    match name {
        Some(n) => {
            variables.push("name".to_owned(), Scalar::Str(n));
        },
        None => {},
    }
    match notes {
        Some(n) => {
            variables.push("notes".to_owned(), Scalar::Str(n));
        },
        None => {},
    }
    Operation { document: "mutation($keyId: String!, $name: String, $notes: String) { apiAccessUpdateKeys(keys: [{id: $keyId, name: $name, notes: $notes}]) { updatedKeys { id name type notes } errors { message type } } }".to_owned(), variables }
}

/// The delete operation: the single key id, bound under `keyId`.
pub fn delete_api_key(key_id: String) -> (op: Operation)
    ensures
        op.document@ == delete_document_text(),
        op.variables@ == seq![("keyId"@, ScalarV::Str(key_id@))],
{
    let mut variables = Variables::new();
    variables.push("keyId".to_owned(), Scalar::Str(key_id));
    proof {
        assert(variables@ =~= seq![("keyId"@, ScalarV::Str(key_id@))]);
    }
    Operation { document: "mutation($keyId: String!) { apiAccessDeleteKeys(keys: {ingestKeyIds: $keyId}) { deletedKeys { id } errors { message type } } }".to_owned(), variables }
}

/// The fields shown for one key; an absent or non-string field reads
/// `"N/A"`.
#[derive(Debug, PartialEq, Eq)]
pub struct KeyDetails {
    pub key: String,
    pub name: String,
    pub key_type: String,
    pub notes: String,
}

/// The field under `name`, when it is a string; `"N/A"` otherwise.
pub open spec fn field_or_na(k: JsonV, name: Seq<char>) -> Seq<char> {
    match k.get(name) {
        Some(JsonV::Str(s)) => s,
        _ => "N/A"@,
    }
}

/// The nested path `actor.apiAccess.key` of a decoded response.
pub open spec fn key_path(data: JsonV) -> Option<JsonV> {
    match data.get("actor"@) {
        Some(a) => match a.get("apiAccess"@) {
            Some(b) => b.get("key"@),
            None => None,
        },
        None => None,
    }
}

fn field_string(k: &Json, name: &str) -> (r: String)
    ensures
        r@ == field_or_na(k@, name@),
{
    match k.get(name) {
        Some(Json::Str(s)) => s.clone(),
        _ => "N/A".to_owned(),
    }
}

/// Reads the single key under `actor.apiAccess.key` out of decoded
/// response data.  An absent path is the ordinary "not found" outcome,
/// never an error; each field of a found key tolerates absence and
/// reads `"N/A"` instead.
pub fn extract_key_details(data: &Json) -> (r: Option<KeyDetails>)
    ensures
        match key_path(data@) {
            Some(k) => r matches Some(d) && d.key@ == field_or_na(k, "key"@) && d.name@
                == field_or_na(k, "name"@) && d.key_type@ == field_or_na(k, "type"@) && d.notes@
                == field_or_na(k, "notes"@),
            None => r is None,
        },
{
    let actor = match data.get("actor") {
        Some(a) => a,
        None => {
            return None;
        },
    };
    let api_access = match actor.get("apiAccess") {
        Some(a) => a,
        None => {
            return None;
        },
    };
    let key = match api_access.get("key") {
        Some(k) => k,
        None => {
            return None;
        },
    };
    Some(
        KeyDetails {
            key: field_string(key, "key"),
            name: field_string(key, "name"),
            key_type: field_string(key, "type"),
            notes: field_string(key, "notes"),
        },
    )
}

} // verus!