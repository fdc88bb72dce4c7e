//! The fixed byte strings of the wire formats: the packet envelope, the
//! acknowledgment envelope, the forwarding envelope, and the canonical
//! application version advertised during the channel handshake.
use vstd::prelude::*;

verus! {

/// `"` starts and ends a JSON string.
pub const BYTE_QUOTE: u8 = 34;
/// `\` introduces an escape inside a JSON string.
pub const BYTE_BACKSLASH: u8 = 92;
/// `,` separates the elements of a JSON array.
pub const BYTE_COMMA: u8 = 44;
/// `[` opens a JSON array.
pub const BYTE_LBRACKET: u8 = 91;
/// `]` closes a JSON array.
pub const BYTE_RBRACKET: u8 = 93;
/// `{` opens a JSON object.
pub const BYTE_LBRACE: u8 = 123;
/// `}` closes a JSON object.
pub const BYTE_RBRACE: u8 = 125;
/// `n`, the first byte of the literal `null`.
pub const BYTE_N: u8 = 110;

/// The bytes of `{\"ibc_query\":{\"msgs\":[`.
pub open spec fn packet_prefix() -> Seq<u8> {
    seq![123u8, 34u8, 105u8, 98u8, 99u8, 95u8, 113u8, 117u8, 101u8, 114u8, 121u8, 34u8, 58u8, 123u8, 34u8, 109u8, 115u8, 103u8, 115u8, 34u8, 58u8, 91u8]
}

/// Returns the bytes of `{\"ibc_query\":{\"msgs\":[`.
pub fn packet_prefix_vec() -> (v: Vec<u8>)
    ensures
        v@ == packet_prefix(),
{
    let v: Vec<u8> = vec![123u8, 34u8, 105u8, 98u8, 99u8, 95u8, 113u8, 117u8, 101u8, 114u8, 121u8, 34u8, 58u8, 123u8, 34u8, 109u8, 115u8, 103u8, 115u8, 34u8, 58u8, 91u8];
    proof { assert(v@ =~= packet_prefix()); }
    v
}

/// The bytes of `],\"callback\":`.
pub open spec fn callback_infix() -> Seq<u8> {
    seq![93u8, 44u8, 34u8, 99u8, 97u8, 108u8, 108u8, 98u8, 97u8, 99u8, 107u8, 34u8, 58u8]
}

/// Returns the bytes of `],\"callback\":`.
pub fn callback_infix_vec() -> (v: Vec<u8>)
    ensures
        v@ == callback_infix(),
{
    let v: Vec<u8> = vec![93u8, 44u8, 34u8, 99u8, 97u8, 108u8, 108u8, 98u8, 97u8, 99u8, 107u8, 34u8, 58u8];
    proof { assert(v@ =~= callback_infix()); }
    v
}

/// The bytes of `null`.
pub open spec fn null_literal() -> Seq<u8> {
    seq![110u8, 117u8, 108u8, 108u8]
}

/// Returns the bytes of `null`.
pub fn null_literal_vec() -> (v: Vec<u8>)
    ensures
        v@ == null_literal(),
{
    let v: Vec<u8> = vec![110u8, 117u8, 108u8, 108u8];
    proof { assert(v@ =~= null_literal()); }
    v
}

/// The bytes of `}}`.
pub open spec fn object_close() -> Seq<u8> {
    seq![125u8, 125u8]
}

/// Returns the bytes of `}}`.
pub fn object_close_vec() -> (v: Vec<u8>)
    ensures
        v@ == object_close(),
{
    let v: Vec<u8> = vec![125u8, 125u8];
    proof { assert(v@ =~= object_close()); }
    v
}

/// The bytes of `{\"ok\":\"`.
pub open spec fn ok_prefix() -> Seq<u8> {
    seq![123u8, 34u8, 111u8, 107u8, 34u8, 58u8, 34u8]
}

/// Returns the bytes of `{\"ok\":\"`.
pub fn ok_prefix_vec() -> (v: Vec<u8>)
    ensures
        v@ == ok_prefix(),
{
    let v: Vec<u8> = vec![123u8, 34u8, 111u8, 107u8, 34u8, 58u8, 34u8];
    proof { assert(v@ =~= ok_prefix()); }
    v
}

/// The bytes of `{\"error\":`.
pub open spec fn error_key() -> Seq<u8> {
    seq![123u8, 34u8, 101u8, 114u8, 114u8, 111u8, 114u8, 34u8, 58u8]
}

/// Returns the bytes of `{\"error\":`.
pub fn error_key_vec() -> (v: Vec<u8>)
    ensures
        v@ == error_key(),
{
    let v: Vec<u8> = vec![123u8, 34u8, 101u8, 114u8, 114u8, 111u8, 114u8, 34u8, 58u8];
    proof { assert(v@ =~= error_key()); }
    v
}

/// The bytes of `}`.
pub open spec fn close_brace() -> Seq<u8> {
    seq![125u8]
}

/// Returns the bytes of `}`.
pub fn close_brace_vec() -> (v: Vec<u8>)
    ensures
        v@ == close_brace(),
{
    let v: Vec<u8> = vec![125u8];
    proof { assert(v@ =~= close_brace()); }
    v
}

/// The bytes of `\"}`.
pub open spec fn quote_close() -> Seq<u8> {
    seq![34u8, 125u8]
}

/// Returns the bytes of `\"}`.
pub fn quote_close_vec() -> (v: Vec<u8>)
    ensures
        v@ == quote_close(),
{
    let v: Vec<u8> = vec![34u8, 125u8];
    proof { assert(v@ =~= quote_close()); }
    v
}

/// The bytes of `{\"results\":[`.
pub open spec fn results_prefix() -> Seq<u8> {
    seq![123u8, 34u8, 114u8, 101u8, 115u8, 117u8, 108u8, 116u8, 115u8, 34u8, 58u8, 91u8]
}

/// Returns the bytes of `{\"results\":[`.
pub fn results_prefix_vec() -> (v: Vec<u8>)
    ensures
        v@ == results_prefix(),
{
    let v: Vec<u8> = vec![123u8, 34u8, 114u8, 101u8, 115u8, 117u8, 108u8, 116u8, 115u8, 34u8, 58u8, 91u8];
    proof { assert(v@ =~= results_prefix()); }
    v
}

/// The bytes of `]}`.
pub open spec fn results_close() -> Seq<u8> {
    seq![93u8, 125u8]
}

/// Returns the bytes of `]}`.
pub fn results_close_vec() -> (v: Vec<u8>)
    ensures
        v@ == results_close(),
{
    let v: Vec<u8> = vec![93u8, 125u8];
    proof { assert(v@ =~= results_close()); }
    v
}

/// The bytes of `{\"receive_ibc_response\":{\"msg\":`.
pub open spec fn forward_prefix() -> Seq<u8> {
    seq![123u8, 34u8, 114u8, 101u8, 99u8, 101u8, 105u8, 118u8, 101u8, 95u8, 105u8, 98u8, 99u8, 95u8, 114u8, 101u8, 115u8, 112u8, 111u8, 110u8, 115u8, 101u8, 34u8, 58u8, 123u8, 34u8, 109u8, 115u8, 103u8, 34u8, 58u8]
}

/// Returns the bytes of `{\"receive_ibc_response\":{\"msg\":`.
pub fn forward_prefix_vec() -> (v: Vec<u8>)
    ensures
        v@ == forward_prefix(),
{
    let v: Vec<u8> = vec![123u8, 34u8, 114u8, 101u8, 99u8, 101u8, 105u8, 118u8, 101u8, 95u8, 105u8, 98u8, 99u8, 95u8, 114u8, 101u8, 115u8, 112u8, 111u8, 110u8, 115u8, 101u8, 34u8, 58u8, 123u8, 34u8, 109u8, 115u8, 103u8, 34u8, 58u8];
    proof { assert(v@ =~= forward_prefix()); }
    v
}

/// The bytes of `simple-ica-v1`.
pub open spec fn app_version() -> Seq<u8> {
    seq![115u8, 105u8, 109u8, 112u8, 108u8, 101u8, 45u8, 105u8, 99u8, 97u8, 45u8, 118u8, 49u8]
}

/// Returns the bytes of `simple-ica-v1`.
pub fn app_version_vec() -> (v: Vec<u8>)
    ensures
        v@ == app_version(),
{
    let v: Vec<u8> = vec![115u8, 105u8, 109u8, 112u8, 108u8, 101u8, 45u8, 105u8, 99u8, 97u8, 45u8, 118u8, 49u8];
    proof { assert(v@ =~= app_version()); }
    v
}

/// The bytes of `invalid packet: could not decode`.
pub open spec fn decode_failure_note() -> Seq<u8> {
    seq![105u8, 110u8, 118u8, 97u8, 108u8, 105u8, 100u8, 32u8, 112u8, 97u8, 99u8, 107u8, 101u8, 116u8, 58u8, 32u8, 99u8, 111u8, 117u8, 108u8, 100u8, 32u8, 110u8, 111u8, 116u8, 32u8, 100u8, 101u8, 99u8, 111u8, 100u8, 101u8]
}

/// Returns the bytes of `invalid packet: could not decode`.
pub fn decode_failure_note_vec() -> (v: Vec<u8>)
    ensures
        v@ == decode_failure_note(),
{
    let v: Vec<u8> = vec![105u8, 110u8, 118u8, 97u8, 108u8, 105u8, 100u8, 32u8, 112u8, 97u8, 99u8, 107u8, 101u8, 116u8, 58u8, 32u8, 99u8, 111u8, 117u8, 108u8, 100u8, 32u8, 110u8, 111u8, 116u8, 32u8, 100u8, 101u8, 99u8, 111u8, 100u8, 101u8];
    proof { assert(v@ =~= decode_failure_note()); }
    v
}

} // verus!
