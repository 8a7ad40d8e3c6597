//! The wire format of the key-value protocol.
//!
//! A request frame is the byte length of the key (four bytes, big-endian),
//! one opcode byte, for `SET` the value (four bytes, big-endian), then the
//! UTF-8 bytes of the key.  Bytes after the key are ignored.  A response
//! frame is the opcode, the status byte, then the value: four big-endian
//! bytes for `GET`, one byte for `DELETE`, nothing for `SET`.

use vstd::prelude::*;
use vstd::utf8::{decode_utf8, encode_utf8, encode_utf8_decode_utf8, encode_utf8_valid_utf8, valid_utf8};
use vstd::slice::slice_subrange;
use vstd::string::{StrSliceExecFns, StringExecFns};
use crate::be::{be_bytes, be_value, u32_from_be, u32_to_be};

verus! {

/// The operation a frame carries.
#[derive(Debug)]
pub enum Op {
    GET,
    SET,
    DELETE,
}

impl Op {
    /// The opcode byte of the operation.
    pub open spec fn wire(self) -> u8 {
        match self {
            Op::GET => 1,
            Op::SET => 2,
            Op::DELETE => 3,
        }
    }

    /// The opcode byte of the operation.
    pub fn code(&self) -> (r: u8)
        ensures
            r == self.wire(),
    {
        match self {
            Op::GET => 1,
            Op::SET => 2,
            Op::DELETE => 3,
        }
    }
}

/// Decimal digits of `n`, most significant first.
pub open spec fn decimal(n: nat) -> Seq<char>
    decreases n,
{
    if n < 10 {
        seq![((48 + n) as u32) as char]
    } else {
        decimal(n / 10).push(((48 + n % 10) as u32) as char)
    }
}

/// The text of the error for an unknown opcode given as `suffix`.
pub open spec fn unknown_opcode_text(suffix: Seq<char>) -> Seq<char> {
    seq!['u', 'n', 'k', 'n', 'o', 'w', 'n', ' ', 'o', 'p', 'c', 'o', 'd', 'e', ' '] + suffix
}

/// `u8::to_string`: the decimal digits of `value`, as `Display` writes them.
#[verifier::external_body]
fn decimal_text(value: u8) -> (r: String)
    ensures
        r@ == decimal(value as nat),
{
    value.to_string()
}

/// The error message for an unknown opcode given as `suffix`.
fn unknown_opcode_message(suffix: &str) -> (r: String)
    ensures
        r@ == unknown_opcode_text(suffix@),
{
    let mut msg = <String as StringExecFns>::from_str("unknown opcode ");
    proof {
        reveal_strlit("unknown opcode ");
    }
    msg.append(suffix);
    assert(msg@ =~= unknown_opcode_text(suffix@));
    msg
}

/// `try_from` states its result in its own contract, not through this
/// trait-level description.
impl vstd::std_specs::convert::TryFromSpecImpl<u8> for Op {
    open spec fn obeys_try_from_spec() -> bool {
        false
    }

    open spec fn try_from_spec(v: u8) -> Result<Op, String> {
        vstd::pervasive::arbitrary()
    }
}

impl TryFrom<u8> for Op {
    type Error = String;

    /// The operation with opcode byte `value`; any other byte is an error
    /// naming it.
    fn try_from(value: u8) -> (r: Result<Op, String>)
        ensures
            match r {
                Ok(op) => op.wire() == value,
                Err(msg) => !(1 <= value <= 3) && msg@ == unknown_opcode_text(decimal(value as nat)),
            },
            (1 <= value <= 3) ==> r is Ok,
    {
        match value {
            1 => Ok(Op::GET),
            2 => Ok(Op::SET),
            3 => Ok(Op::DELETE),
            _ => Err(unknown_opcode_message(decimal_text(value).as_str())),
        }
    }
}


/// Whether two strings hold the same characters.
fn same_chars(a: &str, b: &str) -> (r: bool)
    ensures
        r == (a@ == b@),
{
    let n = a.unicode_len();
    if n != b.unicode_len() {
        return false;
    }
    let mut i: usize = 0;
    while i < n
        invariant
            n == a@.len(),
            n == b@.len(),
            i <= n,
            forall|k: int| 0 <= k < i ==> a@[k] == b@[k],
        decreases n - i,
    {
        if a.get_char(i) != b.get_char(i) {
            return false;
        }
        i += 1;
    }
    assert(a@ =~= b@);
    true
}

/// The name of each operation.
pub open spec fn op_name(op: Op) -> Seq<char> {
    match op {
        Op::GET => seq!['G', 'E', 'T'],
        Op::SET => seq!['S', 'E', 'T'],
        Op::DELETE => seq!['D', 'E', 'L', 'E', 'T', 'E'],
    }
}

impl Op {
    /// The operation named `s` (`"GET"`, `"SET"` or `"DELETE"`); any other
    /// string is an error naming it.
    pub fn from_name(s: &str) -> (r: Result<Op, String>)
        ensures
            match r {
                Ok(op) => op_name(op) == s@,
                Err(msg) => s@ != op_name(Op::GET) && s@ != op_name(Op::SET)
                    && s@ != op_name(Op::DELETE) && msg@ == unknown_opcode_text(s@),
            },
    {
        proof {
            reveal_strlit("GET");
            reveal_strlit("SET");
            reveal_strlit("DELETE");
            assert("GET"@ =~= op_name(Op::GET));
            assert("SET"@ =~= op_name(Op::SET));
            assert("DELETE"@ =~= op_name(Op::DELETE));
        }
        if same_chars(s, "GET") {
            Ok(Op::GET)
        } else if same_chars(s, "SET") {
            Ok(Op::SET)
        } else if same_chars(s, "DELETE") {
            Ok(Op::DELETE)
        } else {
            Err(unknown_opcode_message(s))
        }
    }
}

impl core::str::FromStr for Op {
    type Err = String;

    /// The operation named `s` (`"GET"`, `"SET"` or `"DELETE"`); any other
    /// string is an error naming it.
    fn from_str(s: &str) -> (r: Result<Op, String>)
        ensures
            match r {
                Ok(op) => op_name(op) == s@,
                Err(msg) => s@ != op_name(Op::GET) && s@ != op_name(Op::SET)
                    && s@ != op_name(Op::DELETE) && msg@ == unknown_opcode_text(s@),
            },
    {
        Op::from_name(s)
    }
}

/// Every string converts to `Op::GET`.
impl<'a> vstd::std_specs::convert::TryFromSpecImpl<&'a str> for Op {
    open spec fn obeys_try_from_spec() -> bool {
        true
    }

    open spec fn try_from_spec(v: &'a str) -> Result<Op, String> {
        Ok(Op::GET)
    }
}

impl<'a> TryFrom<&'a str> for Op {
    type Error = String;

    /// Every string converts to `Op::GET`.
    fn try_from(value: &'a str) -> (r: Result<Op, String>)
        ensures
            r == Ok::<Op, String>(Op::GET),
    {
        Ok(Op::GET)
    }
}


/// A request: an operation on a key, with the value to store for `SET`.
#[derive(Debug)]
pub enum Request<'a> {
    GET { key: &'a str },
    SET { key: &'a str, value: u32 },
    DELETE { key: &'a str },
}

/// What a request is: its operation, its key as characters, and its value.
pub enum RequestModel {
    GetKey(Seq<char>),
    SetKey(Seq<char>, u32),
    DeleteKey(Seq<char>),
}

impl<'a> View for Request<'a> {
    type V = RequestModel;

    open spec fn view(&self) -> RequestModel {
        match *self {
            Request::GET { key } => RequestModel::GetKey(key@),
            Request::SET { key, value } => RequestModel::SetKey(key@, value),
            Request::DELETE { key } => RequestModel::DeleteKey(key@),
        }
    }
}

impl RequestModel {
    /// The operation of the request.
    pub open spec fn op(self) -> Op {
        match self {
            RequestModel::GetKey(_) => Op::GET,
            RequestModel::SetKey(_, _) => Op::SET,
            RequestModel::DeleteKey(_) => Op::DELETE,
        }
    }

    /// The key of the request.
    pub open spec fn key(self) -> Seq<char> {
        match self {
            RequestModel::GetKey(k) => k,
            RequestModel::SetKey(k, _) => k,
            RequestModel::DeleteKey(k) => k,
        }
    }
}

/// The frame of a request: key length, opcode, value for `SET`, key bytes.
/// The key length is the byte length of the key, cut to its low 32 bits.
pub open spec fn encode_request(m: RequestModel) -> Seq<u8> {
    let kb = encode_utf8(m.key());
    let value = match m {
        RequestModel::SetKey(_, v) => be_bytes(v),
        _ => Seq::<u8>::empty(),
    };
    be_bytes((kb.len() as usize) as u32) + seq![m.op().wire()] + value + kb
}

/// The request a frame holds, or `None` when the frame is too short for its
/// header, its value or its key, has an unknown opcode, or its key bytes
/// are not UTF-8.  Bytes after the key are ignored.
pub open spec fn decode_request(b: Seq<u8>) -> Option<RequestModel> {
    if b.len() < 5 {
        None
    } else {
        let length = be_value(b) as int;
        let op = b[4];
        let payload = b.subrange(5, b.len() as int);
        if op == 1 || op == 3 {
            if length <= payload.len() && valid_utf8(payload.subrange(0, length)) {
                let key = decode_utf8(payload.subrange(0, length));
                Some(if op == 1 { RequestModel::GetKey(key) } else { RequestModel::DeleteKey(key) })
            } else {
                None
            }
        } else if op == 2 {
            if 4 + length <= payload.len() && valid_utf8(payload.subrange(4, 4 + length)) {
                Some(RequestModel::SetKey(decode_utf8(payload.subrange(4, 4 + length)), be_value(payload)))
            } else {
                None
            }
        } else {
            None
        }
    }
}

/// `core::str::from_utf8`: the string whose UTF-8 bytes are `bytes`, when
/// they are valid UTF-8; `None` when they are not.
#[verifier::external_body]
fn str_from_utf8(bytes: &[u8]) -> (r: Option<&str>)
    ensures
        r is Some <==> valid_utf8(bytes@),
        r matches Some(s) ==> encode_utf8(s@) == bytes@,
{
    core::str::from_utf8(bytes).ok()
}

/// The string that valid UTF-8 bytes encode.
fn utf8_key(bytes: &[u8]) -> (r: &str)
    requires
        valid_utf8(bytes@),
    ensures
        r@ == decode_utf8(bytes@),
{
    let s = str_from_utf8(bytes).unwrap();
    proof {
        encode_utf8_decode_utf8(s@);
    }
    s
}

/// The first four bytes of `b`, read as a big-endian word.
fn read_be(b: &[u8]) -> (r: u32)
    requires
        b@.len() >= 4,
    ensures
        r == be_value(b@),
{
    u32_from_be([b[0], b[1], b[2], b[3]])
}

/// A `GET` request whose key is the first `length` bytes of `buffer`.
fn parse_get(buffer: &[u8], length: u32) -> (r: Request<'_>)
    requires
        length <= buffer@.len(),
        valid_utf8(buffer@.subrange(0, length as int)),
    ensures
        r@ == RequestModel::GetKey(decode_utf8(buffer@.subrange(0, length as int))),
{
    let ptx: usize = 0;
    let key = slice_subrange(buffer, ptx, ptx + (length as usize));
    Request::GET { key: utf8_key(key) }
}

/// A `SET` request whose value is the first four bytes of `buffer` and whose
/// key is the `length` bytes after them.
fn parse_set(buffer: &[u8], length: u32) -> (r: Request<'_>)
    requires
        4 + length <= buffer@.len(),
        valid_utf8(buffer@.subrange(4, 4 + length)),
    ensures
        r@ == RequestModel::SetKey(decode_utf8(buffer@.subrange(4, 4 + length)), be_value(buffer@)),
{
    let mut ptx: usize = 0;
    let value = read_be(buffer);
    ptx += 4;
    assert(ptx + length <= buffer.len());
    let key = slice_subrange(buffer, ptx, ptx + (length as usize));
    Request::SET { key: utf8_key(key), value }
}

/// A `DELETE` request whose key is the first `length` bytes of `buffer`.
fn parse_delete(buffer: &[u8], lenght: u32) -> (r: Request<'_>)
    requires
        lenght <= buffer@.len(),
        valid_utf8(buffer@.subrange(0, lenght as int)),
    ensures
        r@ == RequestModel::DeleteKey(decode_utf8(buffer@.subrange(0, lenght as int))),
{
    let ptx: usize = 0;
    let key = slice_subrange(buffer, ptx, ptx + (lenght as usize));
    Request::DELETE { key: utf8_key(key) }
}

/// Whether `buffer` holds a request frame that `parse_request` accepts.
pub fn is_request_frame(buffer: &[u8]) -> (r: bool)
    ensures
        r == decode_request(buffer@) is Some,
{
    if buffer.len() < 5 {
        return false;
    }
    let length = read_be(buffer);
    let op = buffer[4];
    let payload = slice_subrange(buffer, 5, buffer.len());
    assert(payload@ == buffer@.subrange(5, buffer@.len() as int));
    if op < 1 || op > 3 {
        return false;
    }
    let key_start: usize = if op == 2 { 4 } else { 0 };
    if payload.len() < key_start || length as usize > payload.len() - key_start {
        return false;
    }
    let key = slice_subrange(payload, key_start, key_start + length as usize);
    str_from_utf8(key).is_some()
}

/// The request that a frame holds.
pub fn parse_request(buffer: &Vec<u8>) -> (r: Request<'_>)
    requires
        decode_request(buffer@) is Some,
    ensures
        decode_request(buffer@) == Some(r@),
{
    let length = read_be(buffer.as_slice());
    let payload = slice_subrange(buffer.as_slice(), 5, buffer.len());
    assert(payload@ == buffer@.subrange(5, buffer@.len() as int));
    let op = Op::try_from(buffer[4]).unwrap();
    let request: Request = match op {
        Op::GET => parse_get(payload, length),
        Op::SET => parse_set(payload, length),
        Op::DELETE => parse_delete(payload, length),
    };
    request
}

/// Appends the four bytes of `b` to `out`.
fn push_word(out: &mut Vec<u8>, b: [u8; 4])
    ensures
        final(out)@ == old(out)@ + b@,
{
    out.push(b[0]);
    out.push(b[1]);
    out.push(b[2]);
    out.push(b[3]);
    assert(out@ =~= old(out)@ + b@);
}

/// The frame of a request.
pub fn frame_encoder(request: Request) -> (r: Vec<u8>)
    ensures
        r@ == encode_request(request@),
{
    let mut result: Vec<u8> = Vec::new();
    let (op, key, value) = match request {
        Request::GET { key } => (Op::GET, key, Option::None),
        Request::SET { key, value } => (Op::SET, key, Option::Some(value)),
        Request::DELETE { key } => (Op::DELETE, key, Option::None),
    };
    // encode the length first
    push_word(&mut result, u32_to_be(key.len() as u32));
    // op code
    result.push(op.code());
    // value if available
    if value.is_some() {
        push_word(&mut result, u32_to_be(value.unwrap()));
    }
    // key now
    let ghost before = result@;
    result.extend_from_slice(key.as_bytes());
    assert(result@ =~= before + encode_utf8(key@));
    assert(result@ =~= encode_request(request@));
    result
}

/// Decoding the frame of a request, followed by any bytes, gives the request
/// back, when the key's UTF-8 bytes fit the 32-bit length field.
pub proof fn law_request_roundtrip(m: RequestModel, rest: Seq<u8>)
    requires
        encode_utf8(m.key()).len() <= u32::MAX,
    ensures
        decode_request(encode_request(m) + rest) == Some(m),
{
    let kb = encode_utf8(m.key());
    let b = encode_request(m) + rest;
    crate::be::lemma_be_roundtrip(kb.len() as u32);
    assert(b.subrange(0, 4) =~= be_bytes(kb.len() as u32));
    assert(be_bytes(kb.len() as u32).subrange(0, 4) =~= be_bytes(kb.len() as u32));
    crate::be::lemma_be_value_prefix(b, be_bytes(kb.len() as u32));
    encode_utf8_valid_utf8(m.key());
    encode_utf8_decode_utf8(m.key());
    let payload = b.subrange(5, b.len() as int);
    match m {
        RequestModel::SetKey(k, v) => {
            crate::be::lemma_be_roundtrip(v);
            assert(payload.subrange(4, 4 + kb.len() as int) =~= kb);
            assert(payload.subrange(0, 4) =~= be_bytes(v));
            assert(be_bytes(v).subrange(0, 4) =~= be_bytes(v));
            crate::be::lemma_be_value_prefix(payload, be_bytes(v));
        },
        _ => {
            assert(payload.subrange(0, kb.len() as int) =~= kb);
        },
    }
}

/// Bytes after a frame that decodes do not change what it decodes to, so a
/// frame may sit at the start of a larger, padded buffer.
pub proof fn law_trailing_bytes_ignored(b: Seq<u8>, rest: Seq<u8>)
    requires
        decode_request(b) is Some,
    ensures
        decode_request(b + rest) == decode_request(b),
{
    let c = b + rest;
    assert(c.subrange(0, 4) =~= b.subrange(0, 4));
    crate::be::lemma_be_value_prefix(c, b);
    assert(c[4] == b[4]);
    let length = be_value(b) as int;
    let pb = b.subrange(5, b.len() as int);
    let pc = c.subrange(5, c.len() as int);
    if b[4] == 2 {
        assert(pc.subrange(4, 4 + length) =~= pb.subrange(4, 4 + length));
        assert(pc.subrange(0, 4) =~= pb.subrange(0, 4));
        crate::be::lemma_be_value_prefix(pc, pb);
    } else {
        assert(pc.subrange(0, length) =~= pb.subrange(0, length));
    }
}

/// The layout of every request frame, byte by byte: the key's UTF-8 length
/// in bytes `0..4` (big-endian, when it fits 32 bits), the opcode in byte 4
/// (`1` GET, `2` SET, `3` DELETE), for SET the value in bytes `5..9`
/// (big-endian), and then the key's UTF-8 bytes to the end.
pub proof fn law_request_frame_layout(m: RequestModel)
    ensures
        encode_utf8(m.key()).len() <= u32::MAX ==>
            be_value(encode_request(m).subrange(0, 4)) == encode_utf8(m.key()).len(),
        encode_request(m)[4] == (match m {
            RequestModel::GetKey(_) => 1u8,
            RequestModel::SetKey(_, _) => 2u8,
            RequestModel::DeleteKey(_) => 3u8,
        }),
        m matches RequestModel::SetKey(_, v) ==> {
            &&& encode_request(m).len() == 9 + encode_utf8(m.key()).len()
            &&& be_value(encode_request(m).subrange(5, 9)) == v
            &&& encode_request(m).subrange(9, encode_request(m).len() as int) == encode_utf8(m.key())
        },
        !(m is SetKey) ==> {
            &&& encode_request(m).len() == 5 + encode_utf8(m.key()).len()
            &&& encode_request(m).subrange(5, encode_request(m).len() as int) == encode_utf8(m.key())
        },
{
    let f = encode_request(m);
    let kb = encode_utf8(m.key());
    let n = (kb.len() as usize) as u32;
    crate::be::lemma_be_roundtrip(n);
    assert(f.subrange(0, 4) =~= be_bytes(n));
    if let RequestModel::SetKey(_, v) = m {
        crate::be::lemma_be_roundtrip(v);
        assert(f.subrange(5, 9) =~= be_bytes(v));
        assert(f.subrange(9, f.len() as int) =~= kb);
    } else {
        assert(f.subrange(5, f.len() as int) =~= kb);
    }
}

/// Whether a request succeeded.
#[derive(Debug)]
pub enum Status {
    Success,
    Failure,
}

impl Status {
    /// The status byte.
    pub open spec fn wire(self) -> u8 {
        match self {
            Status::Success => 0,
            Status::Failure => 1,
        }
    }

    /// The status byte.
    pub fn code(&self) -> (r: u8)
        ensures
            r == self.wire(),
    {
        match self {
            Status::Success => 0,
            Status::Failure => 1,
        }
    }
}

/// The answer to a request.
#[allow(inconsistent_fields)]
#[derive(Debug)]
pub enum Response {
    GetResponse { status: Status, value: u32 },
    SetResponse { status: Status },
    DeleteResponse { status: Status, value: bool },
}

/// The frame of a response: opcode, status, then four value bytes for `GET`,
/// one byte (`1` for true) for `DELETE`, nothing for `SET`.
pub open spec fn encode_response(r: Response) -> Seq<u8> {
    match r {
        Response::GetResponse { status, value } => seq![Op::GET.wire(), status.wire()] + be_bytes(value),
        Response::DeleteResponse { status, value } => seq![Op::DELETE.wire(), status.wire(), if value { 1u8 } else { 0u8 }],
        Response::SetResponse { status } => seq![Op::SET.wire(), status.wire()],
    }
}

/// The layout of every response frame, byte by byte: the opcode of its kind
/// (`1` GET, `2` SET, `3` DELETE), the status byte of its own status (`0`
/// success, `1` failure), then for GET the value in four big-endian bytes and
/// for DELETE one byte that is `1` exactly when the value is true.
pub proof fn law_response_frame_layout(r: Response)
    ensures
        match r {
            Response::GetResponse { status, value } => {
                &&& encode_response(r).len() == 6
                &&& encode_response(r)[0] == 1
                &&& encode_response(r)[1] == (if status is Success { 0u8 } else { 1u8 })
                &&& be_value(encode_response(r).subrange(2, 6)) == value
            },
            Response::SetResponse { status } => {
                &&& encode_response(r).len() == 2
                &&& encode_response(r)[0] == 2
                &&& encode_response(r)[1] == (if status is Success { 0u8 } else { 1u8 })
            },
            Response::DeleteResponse { status, value } => {
                &&& encode_response(r).len() == 3
                &&& encode_response(r)[0] == 3
                &&& encode_response(r)[1] == (if status is Success { 0u8 } else { 1u8 })
                &&& encode_response(r)[2] == (if value { 1u8 } else { 0u8 })
            },
        },
{
    if let Response::GetResponse { status, value } = r {
        crate::be::lemma_be_roundtrip(value);
        assert(encode_response(r).subrange(2, 6) =~= be_bytes(value));
    }
}

/// The frame of a response.
pub fn parse_response(response: Response) -> (r: Vec<u8>)
    ensures
        r@ == encode_response(response),
{
    let mut result: Vec<u8> = Vec::new();
    match response {
        Response::GetResponse { status, value } => {
            result.push(Op::GET.code());
            result.push(status.code());
            push_word(&mut result, u32_to_be(value));
        },
        Response::DeleteResponse { status, value } => {
            result.push(Op::DELETE.code());
            result.push(status.code());
            result.push(if value { 1u8 } else { 0u8 });
        },
        Response::SetResponse { status } => {
            result.push(Op::SET.code());
            result.push(status.code());
        },
    };
    assert(result@ =~= encode_response(response));
    result
}

} // verus!
