use vstd::prelude::*;

verus! {

/// A lowercase hexadecimal digit.
pub open spec fn is_lower_hex(c: char) -> bool {
    ('0' <= c && c <= '9') || ('a' <= c && c <= 'f')
}

/// The text of a version-7 UUID in hyphenated lowercase form: 36 characters,
/// hyphens at positions 8, 13, 18 and 23, lowercase hex digits elsewhere, the
/// version digit `7` at position 14 and a variant digit of `8`, `9`, `a` or
/// `b` at position 19.
pub open spec fn is_uuid_v7_text(s: Seq<char>) -> bool {
    &&& s.len() == 36
    &&& forall|i: int|
        0 <= i < 36 ==> if i == 8 || i == 13 || i == 18 || i == 23 {
            #[trigger] s[i] == '-'
        } else {
            is_lower_hex(s[i])
        }
    &&& s[14] == '7'
    &&& (s[19] == '8' || s[19] == '9' || s[19] == 'a' || s[19] == 'b')
}

/// Generates a fresh time-ordered identifier by calling `uuid::Uuid::now_v7`
/// and rendering it with `Display`, which writes the lowercase hyphenated form.
/// `now_v7` sets the version nibble to 7 and the variant bits to `10`, so the
/// text is a version-7 UUID. The other digits come from the clock and random
/// bits, so nothing more is claimed of them, nor that two calls differ.
#[verifier::external_body]
pub fn create() -> (id: String)
    ensures
        id@.len() == 36,
        is_uuid_v7_text(id@),
{
    uuid::Uuid::now_v7().to_string()
}

/// A generated identifier is never the nil UUID (all zeros): its version digit
/// is `7`.
pub proof fn law_generated_ids_are_not_nil(s: Seq<char>)
    requires
        is_uuid_v7_text(s),
    ensures
        s != "00000000-0000-0000-0000-000000000000"@,
{
    reveal_strlit("00000000-0000-0000-0000-000000000000");
    assert("00000000-0000-0000-0000-000000000000"@[14] == '0');
}

} // verus!
