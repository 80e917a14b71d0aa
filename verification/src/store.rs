//! The pointer record: the file in the root that names the active set.
//!
//! The record holds the pointer and nothing else, as UTF-8 text. An empty
//! record says that no set is active.

use crate::error::{EngineError, ErrorView};
use crate::root::{Root, RootView};
use vstd::prelude::*;
use vstd::utf8::{decode_utf8, encode_utf8, valid_utf8};

verus! {

/// The name of the file in the root that holds the pointer record.
pub const CONFIG_FILE_NAME: &'static str = "configs.json";

/// The record that stores `pointer`.
pub open spec fn record_of(pointer: Seq<char>) -> Seq<u8> {
    encode_utf8(pointer)
}

/// The pointer that `record` stores, if it stores one.
pub open spec fn pointer_of(record: Seq<u8>) -> Option<Seq<char>> {
    if valid_utf8(record) {
        Some(decode_utf8(record))
    } else {
        None
    }
}

/// The root after `pointer` has been saved in it.
pub open spec fn saved(r: RootView, pointer: Seq<char>) -> RootView {
    r.with_record(record_of(pointer))
}

/// The root after the pointer has been loaded from it: a record that was
/// missing is there, and empty.
pub open spec fn opened(r: RootView) -> RootView {
    if r.record is Some {
        r
    } else {
        r.with_record(Seq::empty())
    }
}

/// What loading the pointer from the root gives.
pub open spec fn loaded(r: RootView) -> Result<Seq<char>, ErrorView> {
    match pointer_of(opened(r).record.unwrap()) {
        Some(pointer) => Ok(pointer),
        None => Err(ErrorView::StoreCorrupt),
    }
}

/// Every pointer can be read back from its record.
pub proof fn lemma_record_round_trip(pointer: Seq<char>)
    ensures
        pointer_of(record_of(pointer)) == Some(pointer),
{
    vstd::utf8::encode_utf8_valid_utf8(pointer);
    vstd::utf8::encode_utf8_decode_utf8(pointer);
}

/// A pointer that was saved is the pointer that is loaded, whatever the root
/// held before, and loading changes nothing then.
pub proof fn lemma_save_then_load(r: RootView, pointer: Seq<char>)
    ensures
        loaded(saved(r, pointer)) == Ok::<Seq<char>, ErrorView>(pointer),
        opened(saved(r, pointer)) == saved(r, pointer),
{
    lemma_record_round_trip(pointer);
}

/// A record that was just created stores the empty pointer.
pub proof fn lemma_fresh_record_is_empty(r: RootView)
    requires
        r.record is None,
    ensures
        loaded(r) == Ok::<Seq<char>, ErrorView>(Seq::empty()),
{
    assert(encode_utf8(Seq::<char>::empty()) =~= Seq::<u8>::empty()) by {
        reveal_with_fuel(encode_utf8, 1);
    }
    lemma_record_round_trip(Seq::empty());
}

/// `String::from_utf8`: the text that `bytes` hold in UTF-8, and nothing
/// where they are no UTF-8. The text is the one whose encoding is `bytes`.
#[verifier::external_body]
fn text_of(bytes: Vec<u8>) -> (text: Option<String>)
    ensures
        text is Some <==> valid_utf8(bytes@),
        text is Some ==> encode_utf8(text.unwrap()@) == bytes@,
{
    match String::from_utf8(bytes) {
        Ok(text) => Some(text),
        Err(_) => None,
    }
}

/// Writes `pointer` as a record.
pub fn encode_pointer(pointer: &str) -> (record: Vec<u8>)
    ensures
        record@ == record_of(pointer@),
{
    pointer.as_bytes_vec()
}

/// Reads a record: the pointer that it stores, or `StoreCorrupt` where it
/// stores none.
pub fn decode_pointer(record: Vec<u8>) -> (result: Result<String, EngineError>)
    ensures
        match result {
            Ok(pointer) => pointer_of(record@) == Some(pointer@),
            Err(e) => pointer_of(record@) is None && e@ == ErrorView::StoreCorrupt,
        },
{
    match text_of(record) {
        Some(pointer) => {
            proof {
                vstd::utf8::encode_utf8_decode_utf8(pointer@);
            }
            Ok(pointer)
        },
        None => Err(EngineError::StoreCorrupt),
    }
}

/// Whether the root holds a pointer record.
pub fn config_file_exists(root: &Root) -> (exists: bool)
    ensures
        exists == root@.record is Some,
{
    root.record().is_some()
}

/// Creates the pointer record, empty, unless the root holds one.
pub fn create_config_file(root: &mut Root)
    ensures
        final(root)@ == opened(old(root)@),
{
    if !config_file_exists(root) {
        root.write_record(Vec::new());
    }
}

/// Loads the pointer from the root. Where the root holds no record, an empty
/// one is created first.
pub fn get_current_config(root: &mut Root) -> (result: Result<String, EngineError>)
    ensures
        final(root)@ == opened(old(root)@),
        match result {
            Ok(pointer) => loaded(old(root)@) == Ok::<Seq<char>, ErrorView>(pointer@),
            Err(e) => loaded(old(root)@) == Err::<Seq<char>, ErrorView>(e@),
        },
{
    create_config_file(root);
    match root.record() {
        Some(record) => decode_pointer(record),
        None => Err(EngineError::StoreCorrupt),
    }
}

/// Saves `current_config` in the root as the pointer: the record is replaced
/// as a whole.
pub fn update_config_file(root: &mut Root, current_config: &str)
    ensures
        final(root)@ == saved(old(root)@, current_config@),
{
    root.write_record(encode_pointer(current_config));
}

} // verus!
