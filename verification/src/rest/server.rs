//! The requests of the REST front end: transactions posted as JSON fields
//! with base64-encoded keys, and queries by item id or public key.

use crate::blockchain::transaction::{opt_key_view, PubKey, Signature, Transaction, TransactionView};
use crate::blockchain::util::Timestamp;
use vstd::string::StringExecFns;
use vstd::prelude::*;
use vstd::string::StringSliceAdditionalSpecFns;
use vstd::utf8::encode_utf8;

verus! {

/// Base64 decoding (standard alphabet, with padding) of a byte string: the
/// bytes, or the text of the error.
pub uninterp spec fn base64_decode(s: Seq<u8>) -> Result<Seq<u8>, Seq<char>>;

/// The character of the standard base64 alphabet for a value below 64:
/// `A`-`Z`, `a`-`z`, `0`-`9`, `+`, `/`.
pub open spec fn b64_char(n: int) -> char {
    if n < 26 {
        (65 + n) as char
    } else if n < 52 {
        (97 + (n - 26)) as char
    } else if n < 62 {
        (48 + (n - 52)) as char
    } else if n == 62 {
        '+'
    } else {
        '/'
    }
}

/// Base64 encoding with the standard alphabet and padding: each group of
/// three bytes gives four characters of six bits each, and a last group of
/// one or two bytes is completed with `=`.
pub open spec fn base64_encode(s: Seq<u8>) -> Seq<char>
    decreases s.len(),
{
    if s.len() == 0 {
        seq![]
    } else if s.len() == 1 {
        let a = s[0] as int;
        seq![b64_char(a / 4), b64_char((a % 4) * 16), '=', '=']
    } else if s.len() == 2 {
        let a = s[0] as int;
        let b = s[1] as int;
        seq![b64_char(a / 4), b64_char((a % 4) * 16 + b / 16), b64_char((b % 16) * 4), '=']
    } else {
        let a = s[0] as int;
        let b = s[1] as int;
        let c = s[2] as int;
        seq![b64_char(a / 4), b64_char((a % 4) * 16 + b / 16), b64_char((b % 16) * 4 + c / 64), b64_char(c % 64)]
            + base64_encode(s.subrange(3, s.len() as int))
    }
}

/// Calls `base64::decode_config` with the standard configuration: the
/// decoded bytes, or the text of the error, both depending on `s` alone.
#[verifier::external_body]
fn decode_base64(s: &str) -> (r: Result<Vec<u8>, String>)
    ensures
        match base64_decode(s.spec_bytes()) {
            Ok(v) => r matches Ok(w) && w@ == v,
            Err(m) => r matches Err(e) && e@ == m,
        },
{
    match base64::decode_config(s, base64::STANDARD) {
        Ok(v) => Ok(v),
        Err(e) => Err(format!("{}", e)),
    }
}

/// Calls `base64::encode`: the encoding of `data` with the standard
/// alphabet and padding, which `base64::decode_config` with the standard
/// configuration decodes back to `data`.
#[verifier::external_body]
fn encode_base64(data: &[u8]) -> (r: String)
    ensures
        r@ == base64_encode(data@),
        base64_decode(encode_utf8(r@)) is Ok,
        base64_decode(encode_utf8(r@))->Ok_0 == data@,
{
    base64::encode(data)
}

/// The fields of a transaction posted as JSON, as the front end found
/// them: `None` where a field is missing or has another type.
pub struct JsonTxFields {
    pub id: Option<String>,
    pub timestamp: Option<u64>,
    pub public_key_input: Option<String>,
    pub public_key_output: Option<String>,
    pub signature: Option<String>,
}

/// The text fields `id`, `publicKeyInput`, `publicKeyOutput`, `signature`
/// and the unsigned field `timestamp` of the JSON object in `body`, as
/// `serde_json` reads them (`None` where a field is missing or of another
/// type), or the text of the parse error.
pub uninterp spec fn json_fields_of(body: Seq<char>) -> Result<
    (Option<Seq<char>>, Option<u64>, Option<Seq<char>>, Option<Seq<char>>, Option<Seq<char>>),
    Seq<char>,
>;

/// An optional string, by value.
pub open spec fn opt_str_view(s: Option<String>) -> Option<Seq<char>> {
    match s {
        Some(t) => Some(t@),
        None => None,
    }
}

/// The fields of a posted transaction, by value.
pub open spec fn fields_view(f: JsonTxFields) -> (
    Option<Seq<char>>,
    Option<u64>,
    Option<Seq<char>>,
    Option<Seq<char>>,
    Option<Seq<char>>,
) {
    (
        opt_str_view(f.id),
        f.timestamp,
        opt_str_view(f.public_key_input),
        opt_str_view(f.public_key_output),
        opt_str_view(f.signature),
    )
}

/// Calls `serde_json::from_str` into a `serde_json::Value` and reads the
/// fields of a posted transaction with `as_str` and `as_u64`: the fields,
/// or the text of the parse error, both depending on `body` alone.
#[verifier::external_body]
fn parse_json_fields(body: &str) -> (r: Result<JsonTxFields, String>)
    ensures
        match json_fields_of(body@) {
            Ok(f) => r matches Ok(j) && fields_view(j) == f,
            Err(m) => r matches Err(e) && e@ == m,
        },
{
    match serde_json::from_str::<serde_json::Value>(body) {
        Ok(v) => Ok(JsonTxFields {
            id: v["id"].as_str().map(String::from),
            timestamp: v["timestamp"].as_u64(),
            public_key_input: v["publicKeyInput"].as_str().map(String::from),
            public_key_output: v["publicKeyOutput"].as_str().map(String::from),
            signature: v["signature"].as_str().map(String::from),
        }),
        Err(e) => Err(format!("{}", e)),
    }
}

/// The fields of a transaction to be sent as JSON.
pub struct JsonTxOut {
    pub id: String,
    pub timestamp: u64,
    pub public_key_input: Option<String>,
    pub public_key_output: String,
    pub signature: String,
}

/// An HTTP status with its reason.
#[derive(Debug, Clone, Copy)]
pub struct HttpError {
    pub code: u16,
    pub reason: &'static str,
}

/// A query for transactions.
#[derive(Debug)]
pub enum TxQuery {
    /// The transactions for an item.
    ById { id: String, limit: usize, skip: usize },
    /// The transactions that involve a public key.
    ByKey { key: PubKey, limit: usize, skip: usize },
}

fn concat(prefix: &str, detail: &String) -> (r: String)
    ensures
        r@ == prefix@ + detail@,
{
    let mut r = prefix.to_owned();
    r.append(detail.as_str());
    r
}

fn owned(s: &str) -> (r: String)
    ensures
        r@ == s@,
{
    s.to_owned()
}

/// The outcome of reading a posted transaction, from its fields with the
/// keys and signature decoded (`None` where the field was missing).
pub open spec fn spec_assemble(
    id: Option<Seq<char>>,
    timestamp: Option<u64>,
    input: Option<Result<Seq<u8>, Seq<char>>>,
    output: Option<Result<Seq<u8>, Seq<char>>>,
    signature: Option<Result<Seq<u8>, Seq<char>>>,
) -> Result<TransactionView, Seq<char>> {
    if id is None {
        Err("Could not parse id as String"@)
    } else if timestamp is None {
        Err("Could not parse id as u64"@)
    } else if input is Some && input->0 is Err {
        Err("Could not decode publicKeyInput from base64 with error: "@ + input->0->Err_0)
    } else if output is None {
        Err("Could not parse publicKeyOutput as String"@)
    } else if output->0 is Err {
        Err("Could not decode publicKeyOutput from base64 with error: "@ + output->0->Err_0)
    } else if signature is None {
        Err("Could not parse signature as String"@)
    } else if signature->0 is Err {
        Err("Could not decode signature from base64 with error: "@ + signature->0->Err_0)
    } else {
        Ok(TransactionView {
            id: id->0,
            timestamp: timestamp->0,
            input: match input {
                Some(Ok(k)) => Some(k),
                _ => None,
            },
            output: output->0->Ok_0,
            signature: signature->0->Ok_0,
        })
    }
}

/// A decoded field, by value.
pub open spec fn decoded_view(d: Option<Result<Vec<u8>, String>>) -> Option<Result<Seq<u8>, Seq<char>>> {
    match d {
        Some(Ok(v)) => Some(Ok(v@)),
        Some(Err(e)) => Some(Err(e@)),
        None => None,
    }
}

/// The outcome of reading a transaction, by value.
pub open spec fn tx_result_view(r: Result<Transaction, String>) -> Result<TransactionView, Seq<char>> {
    match r {
        Ok(t) => Ok(t@),
        Err(e) => Err(e@),
    }
}

/// Builds a posted transaction from its fields with the keys and signature
/// decoded; the first missing or undecodable field gives the error.
pub fn assemble_transaction(
    id: Option<String>,
    timestamp: Option<Timestamp>,
    input: Option<Result<Vec<u8>, String>>,
    output: Option<Result<Vec<u8>, String>>,
    signature: Option<Result<Vec<u8>, String>>,
) -> (r: Result<Transaction, String>)
    ensures
        tx_result_view(r) == spec_assemble(
            match id {
                Some(s) => Some(s@),
                None => None,
            },
            timestamp,
            decoded_view(input),
            decoded_view(output),
            decoded_view(signature),
        ),
{
    let id = match id {
        Some(s) => s,
        None => return Err(owned("Could not parse id as String")),
    };
    let timestamp = match timestamp {
        Some(v) => v,
        None => return Err(owned("Could not parse id as u64")),
    };
    let pub_key_input: Option<PubKey> = match input {
        Some(Ok(v)) => Some(v),
        Some(Err(e)) => return Err(concat("Could not decode publicKeyInput from base64 with error: ", &e)),
        None => None,
    };
    let pub_key_output: PubKey = match output {
        Some(Ok(v)) => v,
        Some(Err(e)) => return Err(concat("Could not decode publicKeyOutput from base64 with error: ", &e)),
        None => return Err(owned("Could not parse publicKeyOutput as String")),
    };
    let sig: Signature = match signature {
        Some(Ok(v)) => v,
        Some(Err(e)) => return Err(concat("Could not decode signature from base64 with error: ", &e)),
        None => return Err(owned("Could not parse signature as String")),
    };
    Ok(Transaction::from_details(id, timestamp, pub_key_input, pub_key_output, sig))
}

fn decode_field(s: &Option<String>) -> (r: Option<Result<Vec<u8>, String>>)
    ensures
        decoded_view(r) == match s {
            Some(t) => Some(base64_decode(encode_utf8(t@))),
            None => None,
        },
{
    match s {
        Some(t) => Some(decode_base64(t.as_str())),
        None => None,
    }
}

/// The field of a posted transaction, decoded.
pub open spec fn decoded_field(s: Option<String>) -> Option<Result<Seq<u8>, Seq<char>>> {
    match s {
        Some(t) => Some(base64_decode(encode_utf8(t@))),
        None => None,
    }
}

/// Reads a transaction posted as JSON fields: the keys and the signature
/// are decoded from base64.
pub fn json_transaction_to_transaction(fields: JsonTxFields) -> (r: Result<Transaction, String>)
    ensures
        tx_result_view(r) == spec_assemble(
            match fields.id {
                Some(s) => Some(s@),
                None => None,
            },
            fields.timestamp,
            decoded_field(fields.public_key_input),
            decoded_field(fields.public_key_output),
            decoded_field(fields.signature),
        ),
{
    let input = decode_field(&fields.public_key_input);
    let output = decode_field(&fields.public_key_output);
    let signature = decode_field(&fields.signature);
    assemble_transaction(fields.id, fields.timestamp, input, output, signature)
}

/// A text field decoded from base64, by value.
pub open spec fn decoded_text(s: Option<Seq<char>>) -> Option<Result<Seq<u8>, Seq<char>>> {
    match s {
        Some(t) => Some(base64_decode(encode_utf8(t))),
        None => None,
    }
}

/// Reads a transaction posted as a JSON text: the parse error, or the
/// transaction read from the fields with the keys and the signature decoded
/// from base64.
pub fn transaction_from_json(body: &str) -> (r: Result<Transaction, String>)
    ensures
        match json_fields_of(body@) {
            Err(m) => r matches Err(e) && e@ == m,
            Ok(f) => tx_result_view(r) == spec_assemble(f.0, f.1, decoded_text(f.2), decoded_text(f.3), decoded_text(f.4)),
        },
{
    match parse_json_fields(body) {
        Err(e) => Err(e),
        Ok(fields) => json_transaction_to_transaction(fields),
    }
}

/// The fields of a transaction to be sent as JSON: the keys and the
/// signature encoded in base64.
pub fn transaction_to_json_transaction(t: &Transaction) -> (r: JsonTxOut)
    ensures
        r.id@ == t@.id,
        r.timestamp == t@.timestamp,
        r.public_key_output@ == base64_encode(t@.output),
        r.signature@ == base64_encode(t@.signature),
        match t@.input {
            Some(k) => r.public_key_input matches Some(s) && s@ == base64_encode(k),
            None => r.public_key_input is None,
        },
        spec_assemble(
            Some(r.id@),
            Some(r.timestamp),
            decoded_text(opt_str_view(r.public_key_input)),
            decoded_text(Some(r.public_key_output@)),
            decoded_text(Some(r.signature@)),
        ) == Ok::<TransactionView, Seq<char>>(t@),
{
    let public_key_input = match t.get_public_key_input() {
        Some(pk) => Some(encode_base64(pk.as_slice())),
        None => None,
    };
    JsonTxOut {
        id: t.get_id().clone(),
        timestamp: t.get_timestamp(),
        public_key_input,
        public_key_output: encode_base64(t.get_public_key_output().as_slice()),
        signature: encode_base64(t.get_signature().as_slice()),
    }
}

/// A limit or skip of a query: the number given, or no bound.
pub open spec fn bound_or_max(v: Option<u64>) -> usize {
    match v {
        Some(n) => n as usize,
        None => usize::MAX,
    }
}

fn bound_or_max_exec(v: Option<u64>) -> (r: usize)
    ensures
        r == bound_or_max(v),
{
    match v {
        Some(n) => n as usize,
        None => usize::MAX,
    }
}

/// A skip of a query: the number given, or none skipped.
pub open spec fn skip_or_zero(v: Option<u64>) -> usize {
    match v {
        Some(n) => n as usize,
        None => 0,
    }
}

fn skip_or_zero_exec(v: Option<u64>) -> (r: usize)
    ensures
        r == skip_or_zero(v),
{
    match v {
        Some(n) => n as usize,
        None => 0,
    }
}

/// The meaning of a query for transactions: by item id or by public key
/// (base64), exactly one of the two. A missing limit stands for the largest
/// number; a missing skip, the offset from the first transaction, for none.
pub fn transaction_query(
    id: Option<String>,
    public_key: Option<String>,
    limit: Option<u64>,
    skip: Option<u64>,
) -> (r: Result<TxQuery, HttpError>)
    ensures
        match (id, public_key) {
            (None, Some(pk)) => match base64_decode(encode_utf8(pk@)) {
                Ok(k) => r matches Ok(TxQuery::ByKey { key, limit: l, skip: s }) && key@ == k
                    && l == bound_or_max(limit) && s == skip_or_zero(skip),
                Err(_) => r == Err::<TxQuery, HttpError>(HttpError { code: 400, reason: "Could not decode signature from base64" }),
            },
            (Some(i), None) => r matches Ok(TxQuery::ById { id: q, limit: l, skip: s }) && q@ == i@
                && l == bound_or_max(limit) && s == skip_or_zero(skip),
            (Some(_), Some(_)) => r == Err::<TxQuery, HttpError>(HttpError {
                code: 400,
                reason: "info request has both public key and id, can only have one.",
            }),
            (None, None) => r == Err::<TxQuery, HttpError>(HttpError {
                code: 400,
                reason: "info request has no public key or id, must have one",
            }),
        },
{
    let l = bound_or_max_exec(limit);
    let s = skip_or_zero_exec(skip);
    match (id, public_key) {
        (None, Some(pk)) => match decode_base64(pk.as_str()) {
            Ok(key) => Ok(TxQuery::ByKey { key, limit: l, skip: s }),
            Err(_) => Err(HttpError { code: 400, reason: "Could not decode signature from base64" }),
        },
        (Some(i), None) => Ok(TxQuery::ById { id: i, limit: l, skip: s }),
        (Some(_), Some(_)) => Err(HttpError {
            code: 400,
            reason: "info request has both public key and id, can only have one.",
        }),
        (None, None) => Err(HttpError {
            code: 400,
            reason: "info request has no public key or id, must have one",
        }),
    }
}

/// The answer to a query that found `found` transactions: an error when
/// none was found.
pub fn query_status(found: usize) -> (r: Option<HttpError>)
    ensures
        found == 0 ==> r == Some(HttpError { code: 401, reason: "No transaction found for the given information" }),
        found > 0 ==> r is None,
{
    if found == 0 {
        Some(HttpError { code: 401, reason: "No transaction found for the given information" })
    } else {
        None
    }
}

} // verus!
