use crate::idempotency::{IdempotencyKey, IdempotencyKeyError, RecordView};
use crate::notice::{FlashLevel, FlashNotice};
use crate::store::{has_key, key_index, store_wf, Store, StoreView};
use vstd::prelude::*;
use vstd::string::{StrSliceExecFns, StringExecFns};

verus! {

/// The key-management form: which key, and `"1"` to accept it.
#[derive(Debug)]
pub struct FormData {
    pub idempotency_key: String,
    pub validity: String,
}

#[derive(Clone, Copy, Debug, PartialEq, Eq, Structural)]
pub enum KeyStateError {
    NoMatchingKey,
}

impl KeyStateError {
    pub fn message(&self) -> (r: String)
        ensures
            r@ == "No matching key found."@,
    {
        String::from_str("No matching key found.")
    }
}

/// `"1"` accepts a key; anything else rejects it.
pub fn parse_validity(v: &str) -> (r: bool)
    ensures
        r == (v@ == "1"@),
{
    proof {
        reveal_strlit("1");
    }
    if v.unicode_len() == 1 {
        let c = v.get_char(0);
        assert(c == '1' ==> v@ =~= "1"@);
        c == '1'
    } else {
        false
    }
}

/// The ledger after the key's row was marked accepted or rejected.
pub open spec fn with_validity(s: StoreView, operator: u128, key: Seq<char>, valid: bool) -> StoreView {
    StoreView {
        records: s.records.update(
            key_index(s.records, operator, key),
            RecordView { valid, ..s.records[key_index(s.records, operator, key)] },
        ),
        ..s
    }
}

/// Sets the key's state from the form's validity text; fails, changing
/// nothing, when the operator has no such key.
pub fn key_state(store: &mut Store, user_id: u128, idempotency_key: IdempotencyKey, validity: &str) -> (r:
    Result<(), KeyStateError>)
    requires
        store_wf(old(store)@),
    ensures
        store_wf(final(store)@),
        match r {
            Ok(()) => has_key(old(store)@.records, user_id, idempotency_key@) && final(store)@
                == with_validity(old(store)@, user_id, idempotency_key@, validity@ == "1"@),
            Err(e) => !has_key(old(store)@.records, user_id, idempotency_key@) && e
                == KeyStateError::NoMatchingKey && final(store)@ == old(store)@,
        },
{
    let valid = parse_validity(validity);
    if store.set_key_validity(user_id, &idempotency_key, valid) {
        Ok(())
    } else {
        Err(KeyStateError::NoMatchingKey)
    }
}

/// Handles the key-management form: an empty key is refused before
/// anything is touched; otherwise the notice says whether the state
/// changed.
pub fn change_key_state(store: &mut Store, user_id: u128, form: FormData) -> (r: Result<
    FlashNotice,
    IdempotencyKeyError,
>)
    requires
        store_wf(old(store)@),
    ensures
        store_wf(final(store)@),
        match r {
            Err(e) => form.idempotency_key@.len() == 0 && e == IdempotencyKeyError::Empty
                && final(store)@ == old(store)@,
            Ok(n) => form.idempotency_key@.len() > 0 && if has_key(
                old(store)@.records,
                user_id,
                form.idempotency_key@,
            ) {
                final(store)@ == with_validity(
                    old(store)@,
                    user_id,
                    form.idempotency_key@,
                    form.validity@ == "1"@,
                ) && n.level == FlashLevel::Info && n.message@ == "The key state has been changed."@
            } else {
                final(store)@ == old(store)@ && n.level == FlashLevel::Error && n.message@
                    == "Failed to change the key state."@
            },
        },
{
    let FormData { idempotency_key, validity } = form;
    let key = match IdempotencyKey::try_from(idempotency_key) {
        Ok(k) => k,
        Err(e) => {
            return Err(e);
        },
    };
    match key_state(store, user_id, key, validity.as_str()) {
        Ok(()) => Ok(
            FlashNotice {
                level: FlashLevel::Info,
                message: String::from_str("The key state has been changed."),
            },
        ),
        Err(_) => Ok(
            FlashNotice {
                level: FlashLevel::Error,
                message: String::from_str("Failed to change the key state."),
            },
        ),
    }
}

} // verus!
