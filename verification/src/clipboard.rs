//! The OSC 52 escape sequence that asks the terminal itself to put text
//! on the system clipboard (kitty, WezTerm, iTerm2, Windows Terminal,
//! Alacritty), with no clipboard library or X11/Wayland/win32 access.

use base64::Engine;
use vstd::prelude::*;
use vstd::utf8::{encode_scalar, encode_utf8};

use crate::compare::{ansi_stripped, strip_ansi};
use crate::textutil::{push_str_chars, string_of};

verus! {

/// The standard base64 alphabet (RFC 4648).
pub open spec fn b64_alphabet() -> Seq<char> {
    seq!['A', 'B', 'C', 'D', 'E', 'F', 'G', 'H', 'I', 'J', 'K', 'L', 'M', 'N', 'O', 'P', 'Q', 'R', 'S', 'T', 'U', 'V', 'W', 'X', 'Y', 'Z', 'a', 'b', 'c', 'd', 'e', 'f', 'g', 'h', 'i', 'j', 'k', 'l', 'm', 'n', 'o', 'p', 'q', 'r', 's', 't', 'u', 'v', 'w', 'x', 'y', 'z', '0', '1', '2', '3', '4', '5', '6', '7', '8', '9', '+', '/']
}

/// Standard base64 with `=` padding: every three bytes become four
/// characters of six bits each; a last group of one or two bytes is
/// padded with zero bits and `=`.
pub open spec fn base64_standard(bytes: Seq<u8>) -> Seq<char>
    decreases bytes.len(),
{
    let c = b64_alphabet();
    if bytes.len() == 0 {
        seq![]
    } else if bytes.len() == 1 {
        let a = bytes[0] as int;
        seq![c[a / 4], c[(a % 4) * 16], '=', '=']
    } else if bytes.len() == 2 {
        let a = bytes[0] as int;
        let b = bytes[1] as int;
        seq![c[a / 4], c[(a % 4) * 16 + b / 16], c[(b % 16) * 4], '=']
    } else {
        let a = bytes[0] as int;
        let b = bytes[1] as int;
        let d = bytes[2] as int;
        seq![c[a / 4], c[(a % 4) * 16 + b / 16], c[(b % 16) * 4 + d / 64], c[d % 64]]
            + base64_standard(bytes.skip(3))
    }
}

/// Encodes `bytes` with the standard base64 alphabet, with `=` padding
/// (`base64::engine::general_purpose::STANDARD.encode`), as RFC 4648
/// defines it. The encoder panics when the encoded length overflows
/// `usize`, so such inputs are left out.
#[verifier::external_body]
fn base64_encode(bytes: &[u8]) -> (r: String)
    requires
        bytes@.len() / 3 * 4 + 4 <= usize::MAX,
    ensures
        r@ == base64_standard(bytes@),
{
    base64::engine::general_purpose::STANDARD.encode(bytes)
}

/// The OSC 52 "set clipboard" sequence for `text`: its escape codes are
/// removed, the rest is sent base64-encoded as UTF-8.
pub open spec fn osc52(text: Seq<char>) -> Seq<char> {
    "\x1b]52;c;"@ + base64_standard(encode_utf8(ansi_stripped(text))) + "\x07"@
}

proof fn lemma_encode_utf8_len(chars: Seq<char>)
    ensures
        encode_utf8(chars).len() <= 4 * chars.len(),
    decreases chars.len(),
{
    if chars.len() > 0 {
        assert(encode_scalar(chars[0] as u32).len() <= 4);
        lemma_encode_utf8_len(chars.drop_first());
    }
}

/// The escape sequence that copies `text` (without its colors) to the
/// clipboard of the terminal that receives it.
pub fn clipboard_sequence(text: &str) -> (r: String)
    requires
        text@.len() <= usize::MAX / 8,
    ensures
        r@ == osc52(text@),
{
    let plain = strip_ansi(text);
    let bytes = plain.as_str().as_bytes();
    proof {
        lemma_encode_utf8_len(plain@);
        let n = bytes@.len();
        assert(n / 3 * 4 + 4 <= usize::MAX) by (nonlinear_arith)
            requires
                n <= 4 * (usize::MAX / 8),
        ;
    }
    let b64 = base64_encode(bytes);
    let mut out: Vec<char> = Vec::new();
    push_str_chars(&mut out, "\x1b]52;c;");
    push_str_chars(&mut out, b64.as_str());
    push_str_chars(&mut out, "\x07");
    string_of(&out)
}

} // verus!
