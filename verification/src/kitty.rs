use base64::Engine;
use vstd::prelude::*;
use vstd::string::{StringExecFns, StringSliceAdditionalSpecFns};
use vstd::utf8::encode_utf8;

verus! {

/// The character that stands for the six-bit value `v` in the standard base64 alphabet
/// (`A`-`Z`, `a`-`z`, `0`-`9`, `+`, `/`).
pub open spec fn base64_digit(v: int) -> char {
    if v < 26 {
        (65 + v) as char
    } else if v < 52 {
        (97 + v - 26) as char
    } else if v < 62 {
        (48 + v - 52) as char
    } else if v == 62 {
        '+'
    } else {
        '/'
    }
}

/// Standard padded base64 of `b`: each group of three bytes gives four characters of six
/// bits each; a last group of one or two bytes gives two or three, then `=` up to four.
pub open spec fn base64_of_bytes(b: Seq<u8>) -> Seq<char>
    decreases b.len(),
{
    if b.len() == 0 {
        Seq::empty()
    } else if b.len() == 1 {
        let x = b[0] as int;
        seq![base64_digit(x / 4), base64_digit((x % 4) * 16), '=', '=']
    } else if b.len() == 2 {
        let x = b[0] as int;
        let y = b[1] as int;
        seq![base64_digit(x / 4), base64_digit((x % 4) * 16 + y / 16), base64_digit((y % 16) * 4), '=']
    } else {
        let x = b[0] as int;
        let y = b[1] as int;
        let z = b[2] as int;
        seq![
            base64_digit(x / 4),
            base64_digit((x % 4) * 16 + y / 16),
            base64_digit((y % 16) * 4 + z / 64),
            base64_digit(z % 64),
        ] + base64_of_bytes(b.skip(3))
    }
}

/// The standard padded base64 of the UTF-8 bytes of `text`.
pub open spec fn base64_standard(text: Seq<char>) -> Seq<char> {
    base64_of_bytes(encode_utf8(text))
}

#[verifier::external_body]
fn encode_base64(value: &str) -> (r: String)
    requires
        value.spec_bytes().len() <= usize::MAX / 2,
    ensures
        r@ == base64_standard(value@),
{
    base64::engine::general_purpose::STANDARD.encode(value)
}

/// The terminal escape that sets the kitty user variable `key` to the already encoded
/// `encoded` value.
pub open spec fn user_var_escape(key: Seq<char>, encoded: Seq<char>) -> Seq<char> {
    "\x1b]1337;SetUserVar="@ + key + "="@ + encoded + "\x07"@
}

pub fn user_var_sequence(key: &str, encoded: &str) -> (r: String)
    ensures
        r@ == user_var_escape(key@, encoded@),
{
    let mut r = String::new();
    r.append("\x1b]1337;SetUserVar=");
    r.append(key);
    r.append("=");
    r.append(encoded);
    r.append("\x07");
    r
}

/// The terminal escape that sets the kitty user variable `key` to `value` (sent as
/// base64).
pub fn set_user_var(key: &str, value: &str) -> (r: String)
    requires
        value.spec_bytes().len() <= usize::MAX / 2,
    ensures
        r@ == user_var_escape(key@, base64_standard(value@)),
{
    let encoded = encode_base64(value);
    user_var_sequence(key, encoded.as_str())
}

} // verus!
