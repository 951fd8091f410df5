use vstd::prelude::*;
use vstd::string::StringExecFns;

verus! {

/// A client-chosen token that names one logical operation; never empty.
#[derive(Debug)]
pub struct IdempotencyKey(String);

#[derive(Clone, Copy, Debug, PartialEq, Eq, Structural)]
pub enum IdempotencyKeyError {
    Empty,
}

impl IdempotencyKeyError {
    pub fn message(&self) -> (r: String)
        ensures
            r@ == "The idempotency key cannot be empty!"@,
    {
        String::from_str("The idempotency key cannot be empty!")
    }
}

impl View for IdempotencyKey {
    type V = Seq<char>;

    closed spec fn view(&self) -> Seq<char> {
        self.0@
    }
}

impl IdempotencyKey {
    pub fn try_from(s: String) -> (r: Result<IdempotencyKey, IdempotencyKeyError>)
        ensures
            match r {
                Ok(k) => s@.len() > 0 && k@ == s@,
                Err(e) => s@.len() == 0 && e == IdempotencyKeyError::Empty,
            },
    {
        if s.as_str().is_empty() {
            Err(IdempotencyKeyError::Empty)
        } else {
            Ok(IdempotencyKey(s))
        }
    }

    pub fn as_str(&self) -> (r: &str)
        ensures
            r@ == self@,
            r@.len() > 0,
    {
        proof { use_type_invariant(self); }
        self.0.as_str()
    }

    pub fn into_string(self) -> (r: String)
        ensures
            r@ == self@,
    {
        self.0
    }

    #[verifier::type_invariant]
    closed spec fn inv(self) -> bool {
        self.0@.len() > 0
    }
}

/// Copies a byte string.
pub fn copy_bytes(v: &Vec<u8>) -> (r: Vec<u8>)
    ensures
        r@ == v@,
{
    let mut r: Vec<u8> = Vec::new();
    let mut i: usize = 0;
    while i < v.len()
        invariant
            i <= v@.len(),
            r@ == v@.take(i as int),
        decreases v@.len() - i,
    {
        r.push(v[i]);
        i = i + 1;
        assert(r@ =~= v@.take(i as int));
    }
    assert(v@.take(v@.len() as int) =~= v@);
    r
}

/// One response header: its name and its raw value.
#[derive(Debug, PartialEq, Eq)]
pub struct HeaderPair {
    pub name: String,
    pub value: Vec<u8>,
}

impl View for HeaderPair {
    type V = (Seq<char>, Seq<u8>);

    open spec fn view(&self) -> (Seq<char>, Seq<u8>) {
        (self.name@, self.value@)
    }
}

impl HeaderPair {
    pub fn duplicate(&self) -> (r: HeaderPair)
        ensures
            r@ == self@,
    {
        HeaderPair { name: self.name.clone(), value: copy_bytes(&self.value) }
    }
}

/// A captured HTTP outcome, replayed byte for byte on every retry.
#[derive(Debug, PartialEq, Eq)]
pub struct SavedResponse {
    pub status_code: u16,
    pub headers: Vec<HeaderPair>,
    pub body: Vec<u8>,
}

pub struct ResponseView {
    pub status_code: u16,
    pub headers: Seq<(Seq<char>, Seq<u8>)>,
    pub body: Seq<u8>,
}

pub open spec fn header_views(hs: Seq<HeaderPair>) -> Seq<(Seq<char>, Seq<u8>)> {
    hs.map_values(|h: HeaderPair| h@)
}

impl View for SavedResponse {
    type V = ResponseView;

    open spec fn view(&self) -> ResponseView {
        ResponseView {
            status_code: self.status_code,
            headers: header_views(self.headers@),
            body: self.body@,
        }
    }
}

impl SavedResponse {
    pub fn duplicate(&self) -> (r: SavedResponse)
        ensures
            r@ == self@,
    {
        let mut headers: Vec<HeaderPair> = Vec::new();
        let mut i: usize = 0;
        while i < self.headers.len()
            invariant
                i <= self.headers@.len(),
                headers@.len() == i,
                forall|j: int| 0 <= j < i ==> (#[trigger] headers@[j])@ == self.headers@[j]@,
            decreases self.headers@.len() - i,
        {
            headers.push(self.headers[i].duplicate());
            i = i + 1;
        }
        assert(header_views(headers@) =~= header_views(self.headers@));
        SavedResponse { status_code: self.status_code, headers, body: copy_bytes(&self.body) }
    }
}

/// The ledger's row for one (operator, key): a placeholder while the
/// operation runs, then the saved response. `valid` is cleared by an
/// operator who rejects the key.
#[derive(Debug)]
pub struct KeyRecord {
    pub operator: u128,
    pub key: String,
    pub valid: bool,
    pub response: Option<SavedResponse>,
}

pub struct RecordView {
    pub operator: u128,
    pub key: Seq<char>,
    pub valid: bool,
    pub response: Option<ResponseView>,
}

pub open spec fn response_view(r: Option<SavedResponse>) -> Option<ResponseView> {
    match r {
        Some(x) => Some(x@),
        None => None,
    }
}

impl View for KeyRecord {
    type V = RecordView;

    open spec fn view(&self) -> RecordView {
        RecordView {
            operator: self.operator,
            key: self.key@,
            valid: self.valid,
            response: response_view(self.response),
        }
    }
}

} // verus!
