//! Keychain payloads: the service name and bytes an entry carries, and
//! the readable rendering of the bytes. Talking to the platform
//! keychain happens outside the library.

use vstd::prelude::*;
use vstd::slice::slice_to_vec;
use vstd::utf8::decode_utf8;
use vstd::utf8::valid_utf8;

use crate::strutil::dec_digit;

verus! {

/// The lowercase hexadecimal digit of one nibble.
pub open spec fn hex_digit(d: u8) -> char {
    if d < 10 {
        dec_digit(d as nat)
    } else if d == 10 {
        'a'
    } else if d == 11 {
        'b'
    } else if d == 12 {
        'c'
    } else if d == 13 {
        'd'
    } else if d == 14 {
        'e'
    } else {
        'f'
    }
}

/// The lowercase hexadecimal rendering of a byte string: two digits per
/// byte, high nibble first.
pub open spec fn hex_seq(bs: Seq<u8>) -> Seq<char>
    decreases bs.len(),
{
    if bs.len() == 0 {
        Seq::empty()
    } else {
        hex_seq(bs.drop_last()) + seq![
            hex_digit(bs.last() / 16),
            hex_digit(bs.last() % 16),
        ]
    }
}

/// Relies on hex's `encode`: the lowercase hexadecimal rendering of the
/// bytes, two digits per byte, high nibble first.
#[verifier::external_body]
fn hex_encode(b: &Vec<u8>) -> (r: String)
    ensures
        r@ == hex_seq(b@),
{
    hex::encode(b)
}

/// Relies on `String::from_utf8`: succeeds exactly on valid UTF-8,
/// yielding its decoding.
#[verifier::external_body]
fn string_from_utf8(bytes: &Vec<u8>) -> (r: Option<String>)
    ensures
        r is Some <==> valid_utf8(bytes@),
        r matches Some(s) ==> s@ == decode_utf8(bytes@),
{
    String::from_utf8(bytes.clone()).ok()
}

/// One keychain entry's payload: the service name it is filed under and
/// the bytes it carries.
#[derive(Clone, Debug)]
pub struct KeychainData {
    pub service: String,
    pub data: Vec<u8>,
}

impl KeychainData {
    /// A payload for the named service.
    pub fn new(service: &str, data: &[u8]) -> (r: KeychainData)
        ensures
            r.service@ == service@,
            r.data@ == data@,
    {
        KeychainData { service: service.to_owned(), data: slice_to_vec(data) }
    }

    /// The carried bytes as text: their UTF-8 decoding when they are
    /// valid UTF-8, their hexadecimal rendering otherwise.
    pub fn data(&self) -> (r: String)
        ensures
            valid_utf8(self.data@) ==> r@ == decode_utf8(self.data@),
            !valid_utf8(self.data@) ==> r@ == hex_seq(self.data@),
    {
        match string_from_utf8(&self.data) {
            Some(s) => s,
            None => hex_encode(&self.data),
        }
    }
}

/// Byte-for-byte equality of two byte strings.
fn bytes_eq(a: &Vec<u8>, b: &Vec<u8>) -> (r: bool)
    ensures
        r == (a@ == b@),
{
    if a.len() != b.len() {
        return false;
    }
    let mut i: usize = 0;
    while i < a.len()
        invariant
            i <= a@.len(),
            a@.len() == b@.len(),
            forall|k: int| 0 <= k < i ==> a@[k] == b@[k],
        decreases a@.len() - i,
    {
        if a[i] != b[i] {
            return false;
        }
        i = i + 1;
    }
    proof {
        assert(a@ =~= b@);
    }
    true
}

impl PartialEq for KeychainData {
    fn eq(&self, other: &KeychainData) -> (r: bool) {
        if !self.service.eq(&other.service) {
            return false;
        }
        bytes_eq(&self.data, &other.data)
    }
}

impl Eq for KeychainData {

}

impl vstd::std_specs::cmp::PartialEqSpecImpl for KeychainData {
    open spec fn obeys_eq_spec() -> bool {
        true
    }

    open spec fn eq_spec(&self, other: &KeychainData) -> bool {
        self.service@ == other.service@ && self.data@ == other.data@
    }
}

} // verus!
