use vstd::prelude::*;

verus! {

/// The lowercase hexadecimal digit for `d`, `0` to `15`.
pub open spec fn hex_digit(d: int) -> char {
    if d < 10 {
        (48 + d) as char
    } else {
        (87 + d) as char
    }
}

/// Each byte as two lowercase hexadecimal digits, high half first.
pub open spec fn lower_hex(bytes: Seq<u8>) -> Seq<char>
    decreases bytes.len(),
{
    if bytes.len() == 0 {
        seq![]
    } else {
        lower_hex(bytes.drop_last()) + seq![
            hex_digit(bytes.last() as int / 16),
            hex_digit(bytes.last() as int % 16),
        ]
    }
}

/// Sixteen bytes laid out as a random (version 4, RFC 4122 variant) UUID.
pub open spec fn is_random_uuid(bytes: Seq<u8>) -> bool {
    &&& bytes.len() == 16
    &&& bytes[6] / 16 == 4
    &&& bytes[8] / 64 == 2
}

/// The bytes of a fresh random UUID (`uuid::Uuid::new_v4`). The value is
/// random; what is stated is the layout that `new_v4` sets: the version
/// nibble 4 in byte 6 and the variant bits `10` at the top of byte 8.
#[verifier::external_body]
fn random_uuid_bytes() -> (b: [u8; 16])
    ensures
        is_random_uuid(b@),
{
    uuid::Uuid::new_v4().into_bytes()
}

/// The simple text form of a UUID given by its bytes
/// (`uuid::Uuid::from_bytes(..).simple().to_string()`): the 32 lowercase
/// hexadecimal digits of its bytes, in order, without hyphens.
#[verifier::external_body]
fn uuid_simple_text(b: [u8; 16]) -> (s: String)
    ensures
        s@ == lower_hex(b@),
{
    uuid::Uuid::from_bytes(b).simple().to_string()
}

/// The record key of a UUID given by its bytes: its simple text form.
pub fn record_key_from_bytes(b: [u8; 16]) -> (k: String)
    ensures
        k@ == lower_hex(b@),
{
    uuid_simple_text(b)
}

/// A fresh random key: a random UUID in simple text form.
pub fn new_record_key() -> (k: String)
    ensures
        exists|b: Seq<u8>| is_random_uuid(b) && k@ == lower_hex(b),
{
    let b = random_uuid_bytes();
    record_key_from_bytes(b)
}

/// A fresh document record id: `document:` and a fresh random key.
pub fn new_document_id() -> (id: String)
    ensures
        exists|b: Seq<u8>| is_random_uuid(b) && id@ == "document:"@ + lower_hex(b),
{
    let key = new_record_key();
    let mut id = "document:".to_owned();
    id.append(key.as_str());
    id
}

/// The hexadecimal form has two digits per byte, each `0`-`9` or `a`-`f`.
pub proof fn lemma_lower_hex_shape(bytes: Seq<u8>)
    ensures
        lower_hex(bytes).len() == 2 * bytes.len(),
        forall|i: int|
            0 <= i < lower_hex(bytes).len() ==> ('0' <= #[trigger] lower_hex(bytes)[i] <= '9' || 'a'
                <= lower_hex(bytes)[i] <= 'f'),
    decreases bytes.len(),
{
    if bytes.len() > 0 {
        let t = bytes.drop_last();
        lemma_lower_hex_shape(t);
        let h = lower_hex(bytes);
        let ht = lower_hex(t);
        let hi = bytes.last() as int / 16;
        let lo = bytes.last() as int % 16;
        assert(0 <= hi < 16 && 0 <= lo < 16);
        assert forall|i: int| 0 <= i < h.len() implies ('0' <= #[trigger] h[i] <= '9' || 'a' <= h[i]
            <= 'f') by {
            if i < ht.len() {
                assert(h[i] == ht[i]);
            } else if i == ht.len() {
                assert(h[i] == hex_digit(hi as int));
            } else {
                assert(h[i] == hex_digit(lo as int));
            }
        }
    }
}

} // verus!
