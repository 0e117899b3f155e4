//! The wire protocol: a three-byte opcode tag, then a payload of
//! `;`-separated text fields (or, for a snapshot, a JSON document that the
//! caller reads).
use vstd::prelude::*;
use vstd::utf8::{decode_utf8, encode_utf8, valid_utf8};

use crate::decimal::{decimal_of, field_or_zero, field_value, integer_value, push_decimal};
use crate::direction::{direction_of_ordinal, ordinal_of, Direction};
use crate::player::Point;

verus! {

/// The field separator `;`.
pub const SEP: u8 = 59;

pub const COMMA: u8 = 44;

pub const CLOSE_BRACE: u8 = 125;

pub open spec fn op_login() -> Seq<u8> {
    seq![76u8, 49u8, 59u8]
}

pub open spec fn op_snapshot() -> Seq<u8> {
    seq![80u8, 48u8, 59u8]
}

pub open spec fn op_move() -> Seq<u8> {
    seq![77u8, 48u8, 59u8]
}

pub open spec fn op_sync() -> Seq<u8> {
    seq![83u8, 48u8, 59u8]
}

/// `{"x":`
pub open spec fn x_key() -> Seq<u8> {
    seq![123u8, 34u8, 120u8, 34u8, 58u8]
}

/// `,"y":`
pub open spec fn y_key() -> Seq<u8> {
    seq![44u8, 34u8, 121u8, 34u8, 58u8]
}

/// The named token of a direction on the wire.
pub open spec fn name_bytes(d: Direction) -> Seq<u8> {
    match d {
        Direction::Stationary => seq![83u8, 116u8, 97u8, 116u8, 105u8, 111u8, 110u8, 97u8, 114u8, 121u8],
        Direction::Up => seq![85u8, 112u8],
        Direction::Right => seq![82u8, 105u8, 103u8, 104u8, 116u8],
        Direction::Down => seq![68u8, 111u8, 119u8, 110u8],
        Direction::Left => seq![76u8, 101u8, 102u8, 116u8],
    }
}

/// The first index at or after `from` that holds `c`, or the length of `s`.
pub open spec fn next_byte(s: Seq<u8>, from: int, c: u8) -> int
    decreases s.len() - from,
{
    if from >= s.len() {
        s.len() as int
    } else if s[from] == c {
        from
    } else {
        next_byte(s, from + 1, c)
    }
}

/// The bounds of the `k`-th `;`-separated field of `s[start..]`, if it has
/// that many.
pub open spec fn field_bounds(s: Seq<u8>, start: int, k: nat) -> Option<(int, int)>
    decreases k,
{
    let end = next_byte(s, start, SEP);
    if k == 0 {
        Some((start, end))
    } else if end >= s.len() {
        None
    } else {
        field_bounds(s, end + 1, (k - 1) as nat)
    }
}

/// The characters that `b` encodes, or none where it is not UTF-8.
pub open spec fn text_of(b: Seq<u8>) -> Seq<char> {
    if valid_utf8(b) {
        decode_utf8(b)
    } else {
        Seq::empty()
    }
}

/// A direction field: a named token, or a legacy ordinal digit.
pub open spec fn direction_of_field(f: Seq<u8>) -> Option<Direction> {
    if f == name_bytes(Direction::Stationary) {
        Some(Direction::Stationary)
    } else if f == name_bytes(Direction::Up) {
        Some(Direction::Up)
    } else if f == name_bytes(Direction::Right) {
        Some(Direction::Right)
    } else if f == name_bytes(Direction::Down) {
        Some(Direction::Down)
    } else if f == name_bytes(Direction::Left) {
        Some(Direction::Left)
    } else if f.len() == 1 && 48 <= f[0] <= 57 {
        direction_of_ordinal((f[0] - 48) as u8)
    } else {
        None
    }
}

pub open spec fn i32_or_zero(f: Seq<u8>) -> i32 {
    field_or_zero(f, i32::MIN as int, i32::MAX as int) as i32
}

/// A position in the form `{"x":X,"y":Y}`; a coordinate that is not an
/// `i32` reads as 0, and a field of any other shape as the origin.
pub open spec fn point_of_field(f: Seq<u8>) -> Point {
    let n = f.len() as int;
    if n >= 11 && f.take(5) == x_key() && f[n - 1] == CLOSE_BRACE {
        let c = next_byte(f, 5, COMMA);
        if c + 5 <= n - 1 && f.subrange(c, c + 5) == y_key() {
            Point { x: i32_or_zero(f.subrange(5, c)), y: i32_or_zero(f.subrange(c + 5, n - 1)) }
        } else {
            Point { x: 0, y: 0 }
        }
    } else {
        Point { x: 0, y: 0 }
    }
}

pub open spec fn timestamp_field(b: Seq<u8>, k: nat) -> i64 {
    match field_bounds(b, 3, k) {
        Some((lo, hi)) => field_or_zero(b.subrange(lo, hi), i64::MIN as int, i64::MAX as int) as i64,
        None => 0,
    }
}

pub open spec fn text_field(b: Seq<u8>, k: nat) -> Seq<char> {
    match field_bounds(b, 3, k) {
        Some((lo, hi)) => text_of(b.subrange(lo, hi)),
        None => Seq::empty(),
    }
}

pub open spec fn direction_field(b: Seq<u8>, k: nat) -> Option<Direction> {
    match field_bounds(b, 3, k) {
        Some((lo, hi)) => direction_of_field(b.subrange(lo, hi)),
        None => None,
    }
}

pub open spec fn point_field(b: Seq<u8>, k: nat) -> Point {
    match field_bounds(b, 3, k) {
        Some((lo, hi)) => point_of_field(b.subrange(lo, hi)),
        None => Point { x: 0, y: 0 },
    }
}

/// Why a datagram could not be decoded.
#[derive(Clone, Copy, Debug, PartialEq, Eq, Structural)]
pub enum CodecError {
    /// Fewer than three bytes, or bytes that are not UTF-8 text.
    MalformedFrame,
}

/// A decoded datagram.
#[derive(Debug)]
pub enum Message {
    /// `L1;`: the authority acknowledges a login with the player's id.
    Login { id: String },
    /// `P0;`: a snapshot; the payload is a JSON object from id to player.
    Snapshot { payload: Vec<u8> },
    /// `M0;timestamp;id;direction`; `direction` is `None` where the field
    /// holds no known direction.
    Move { timestamp: i64, id: String, direction: Option<Direction> },
    /// `S0;timestamp;id;{"x":X,"y":Y}`.
    Sync { timestamp: i64, id: String, position: Point },
    /// Any other opcode.
    Nothing,
}

/// What a decoded datagram says.
pub enum MessageModel {
    Login { id: Seq<char> },
    Snapshot { payload: Seq<u8> },
    Move { timestamp: i64, id: Seq<char>, direction: Option<Direction> },
    Sync { timestamp: i64, id: Seq<char>, position: Point },
    Nothing,
}

impl View for Message {
    type V = MessageModel;

    open spec fn view(&self) -> MessageModel {
        match self {
            Message::Login { id } => MessageModel::Login { id: id@ },
            Message::Snapshot { payload } => MessageModel::Snapshot { payload: payload@ },
            Message::Move { timestamp, id, direction } => MessageModel::Move {
                timestamp: *timestamp,
                id: id@,
                direction: *direction,
            },
            Message::Sync { timestamp, id, position } => MessageModel::Sync {
                timestamp: *timestamp,
                id: id@,
                position: *position,
            },
            Message::Nothing => MessageModel::Nothing,
        }
    }
}

/// The message that a frame of at least three bytes carries.
pub open spec fn frame_model(b: Seq<u8>) -> MessageModel {
    let op = b.take(3);
    if op == op_login() {
        MessageModel::Login { id: text_of(b.skip(3)) }
    } else if op == op_snapshot() {
        MessageModel::Snapshot { payload: b.skip(3) }
    } else if op == op_move() {
        MessageModel::Move {
            timestamp: timestamp_field(b, 0),
            id: text_field(b, 1),
            direction: direction_field(b, 2),
        }
    } else if op == op_sync() {
        MessageModel::Sync {
            timestamp: timestamp_field(b, 0),
            id: text_field(b, 1),
            position: point_field(b, 2),
        }
    } else {
        MessageModel::Nothing
    }
}

/// What decoding a datagram yields.
pub open spec fn decode_model(b: Seq<u8>) -> Result<MessageModel, CodecError> {
    if b.len() < 3 || !valid_utf8(b) {
        Err(CodecError::MalformedFrame)
    } else {
        Ok(frame_model(b))
    }
}

/// Relies on `String::from_utf8`, which returns the string that the bytes
/// encode, and an error exactly where they are not UTF-8.
#[verifier::external_body]
fn string_from_utf8(b: Vec<u8>) -> (r: Option<String>)
    ensures
        r is Some <==> valid_utf8(b@),
        r matches Some(s) ==> s@ == decode_utf8(b@),
{
    String::from_utf8(b).ok()
}

/// A copy of `s[lo..hi]`.
fn copy_range(s: &[u8], lo: usize, hi: usize) -> (r: Vec<u8>)
    requires
        lo <= hi <= s@.len(),
    ensures
        r@ == s@.subrange(lo as int, hi as int),
{
    let mut r: Vec<u8> = Vec::new();
    let mut i: usize = lo;
    while i < hi
        invariant
            lo <= i <= hi <= s@.len(),
            r@ == s@.subrange(lo as int, i as int),
        decreases hi - i,
    {
        r.push(s[i]);
        i = i + 1;
        assert(r@ =~= s@.subrange(lo as int, i as int));
    }
    r
}

fn bytes_equal(a: &[u8], b: &[u8]) -> (r: bool)
    ensures
        r == (a@ == b@),
{
    if a.len() != b.len() {
        return false;
    }
    let mut i: usize = 0;
    while i < a.len()
        invariant
            a@.len() == b@.len(),
            0 <= i <= a@.len(),
            forall|j: int| 0 <= j < i ==> a@[j] == b@[j],
        decreases a@.len() - i,
    {
        if a[i] != b[i] {
            return false;
        }
        i = i + 1;
    }
    assert(a@ =~= b@);
    true
}

/// The first index at or after `from` that holds `c`, or the length.
fn find_byte(s: &[u8], from: usize, c: u8) -> (r: usize)
    requires
        from <= s@.len(),
    ensures
        r as int == next_byte(s@, from as int, c),
{
    let mut i: usize = from;
    while i < s.len() && s[i] != c
        invariant
            from <= i <= s@.len(),
            next_byte(s@, from as int, c) == next_byte(s@, i as int, c),
        decreases s@.len() - i,
    {
        i = i + 1;
    }
    i
}

proof fn lemma_next_byte_bounds(s: Seq<u8>, from: int, c: u8)
    requires
        0 <= from <= s.len(),
    ensures
        from <= next_byte(s, from, c) <= s.len(),
    decreases s.len() - from,
{
    if from < s.len() && s[from] != c {
        lemma_next_byte_bounds(s, from + 1, c);
    }
}

proof fn lemma_field_bounds(s: Seq<u8>, start: int, k: nat)
    requires
        0 <= start <= s.len(),
    ensures
        field_bounds(s, start, k) matches Some((lo, hi)) ==> start <= lo <= hi <= s.len(),
    decreases k,
{
    lemma_next_byte_bounds(s, start, SEP);
    if k > 0 && next_byte(s, start, SEP) < s.len() {
        lemma_field_bounds(s, next_byte(s, start, SEP) + 1, (k - 1) as nat);
    }
}

/// The bounds of the `k`-th field of `s[start..]`.
pub(crate) fn locate_field(s: &[u8], start: usize, k: usize) -> (r: Option<(usize, usize)>)
    requires
        start <= s@.len(),
    ensures
        r matches Some((lo, hi)) ==> field_bounds(s@, start as int, k as nat) == Some(
            (lo as int, hi as int),
        ) && start <= lo <= hi <= s@.len(),
        r is None ==> field_bounds(s@, start as int, k as nat) is None,
{
    let mut from: usize = start;
    let mut left: usize = k;
    proof {
        lemma_field_bounds(s@, start as int, k as nat);
    }
    loop
        invariant
            start <= from <= s@.len(),
            field_bounds(s@, start as int, k as nat) == field_bounds(s@, from as int, left as nat),
            field_bounds(s@, from as int, left as nat) matches Some((lo, hi)) ==> from <= lo <= hi <= s@.len(),
        decreases left,
    {
        let end = find_byte(s, from, SEP);
        proof {
            lemma_next_byte_bounds(s@, from as int, SEP);
        }
        if left == 0 {
            return Some((from, end));
        }
        if end >= s.len() {
            return None;
        }
        proof {
            lemma_field_bounds(s@, end + 1, (left - 1) as nat);
        }
        from = end + 1;
        left = left - 1;
    }
}

/// The text that `s[lo..hi]` encodes, or the empty string where it is not
/// UTF-8.
pub(crate) fn text_in(s: &[u8], lo: usize, hi: usize) -> (r: String)
    requires
        lo <= hi <= s@.len(),
    ensures
        r@ == text_of(s@.subrange(lo as int, hi as int)),
{
    match string_from_utf8(copy_range(s, lo, hi)) {
        Some(t) => t,
        None => String::new(),
    }
}

/// The named token of a direction.
pub fn direction_name(d: Direction) -> (r: Vec<u8>)
    ensures
        r@ == name_bytes(d),
{
    let r = match d {
        Direction::Stationary => vec![83u8, 116u8, 97u8, 116u8, 105u8, 111u8, 110u8, 97u8, 114u8, 121u8],
        Direction::Up => vec![85u8, 112u8],
        Direction::Right => vec![82u8, 105u8, 103u8, 104u8, 116u8],
        Direction::Down => vec![68u8, 111u8, 119u8, 110u8],
        Direction::Left => vec![76u8, 101u8, 102u8, 116u8],
    };
    assert(r@ =~= name_bytes(d));
    r
}

/// Reads a direction field: a named token or a legacy ordinal digit.
pub fn parse_direction(f: &[u8]) -> (r: Option<Direction>)
    ensures
        r == direction_of_field(f@),
{
    if bytes_equal(f, direction_name(Direction::Stationary).as_slice()) {
        Some(Direction::Stationary)
    } else if bytes_equal(f, direction_name(Direction::Up).as_slice()) {
        Some(Direction::Up)
    } else if bytes_equal(f, direction_name(Direction::Right).as_slice()) {
        Some(Direction::Right)
    } else if bytes_equal(f, direction_name(Direction::Down).as_slice()) {
        Some(Direction::Down)
    } else if bytes_equal(f, direction_name(Direction::Left).as_slice()) {
        Some(Direction::Left)
    } else if f.len() == 1 && 48 <= f[0] && f[0] <= 57 {
        Direction::from_ordinal(f[0] - 48)
    } else {
        None
    }
}

/// Reads a position field of the form `{"x":X,"y":Y}`.
pub fn parse_point(f: &[u8]) -> (r: Point)
    ensures
        r == point_of_field(f@),
{
    let n = f.len();
    if n >= 11 && f[0] == 123 && f[1] == 34 && f[2] == 120 && f[3] == 34 && f[4] == 58 && f[n
        - 1] == CLOSE_BRACE {
        assert(f@.take(5) =~= x_key());
        let c = find_byte(f, 5, COMMA);
        proof {
            lemma_next_byte_bounds(f@, 5, COMMA);
        }
        if n - c >= 6 && f[c] == 44 && f[c + 1] == 34 && f[c + 2] == 121 && f[c + 3] == 34
            && f[c + 4] == 58 {
            assert(f@.subrange(c as int, c + 5) =~= y_key());
            let x = field_value(f, 5, c, i32::MIN as i64, i32::MAX as i64);
            let y = field_value(f, c + 5, n - 1, i32::MIN as i64, i32::MAX as i64);
            Point { x: x as i32, y: y as i32 }
        } else {
            proof {
                if c + 5 <= n - 1 && f@.subrange(c as int, c + 5) == y_key() {
                    assert(f@.subrange(c as int, c + 5)[0] == f@[c as int]);
                    assert(f@.subrange(c as int, c + 5)[1] == f@[c + 1]);
                    assert(f@.subrange(c as int, c + 5)[2] == f@[c + 2]);
                    assert(f@.subrange(c as int, c + 5)[3] == f@[c + 3]);
                    assert(f@.subrange(c as int, c + 5)[4] == f@[c + 4]);
                }
            }
            Point { x: 0, y: 0 }
        }
    } else {
        proof {
            if n >= 11 && f@.take(5) == x_key() {
                assert(f@.take(5)[0] == f@[0]);
                assert(f@.take(5)[1] == f@[1]);
                assert(f@.take(5)[2] == f@[2]);
                assert(f@.take(5)[3] == f@[3]);
                assert(f@.take(5)[4] == f@[4]);
            }
        }
        Point { x: 0, y: 0 }
    }
}

/// Whether the first three bytes of `b` are `p`.
fn has_opcode(b: &[u8], p0: u8, p1: u8, p2: u8) -> (r: bool)
    requires
        b@.len() >= 3,
    ensures
        r == (b@.take(3) == seq![p0, p1, p2]),
{
    let r = b[0] == p0 && b[1] == p1 && b[2] == p2;
    proof {
        if r {
            assert(b@.take(3) =~= seq![p0, p1, p2]);
        } else if b@.take(3) == seq![p0, p1, p2] {
            assert(b@.take(3)[0] == b@[0]);
            assert(b@.take(3)[1] == b@[1]);
            assert(b@.take(3)[2] == b@[2]);
        }
    }
    r
}

fn timestamp_at(b: &[u8], k: usize) -> (r: i64)
    requires
        b@.len() >= 3,
    ensures
        r == timestamp_field(b@, k as nat),
{
    match locate_field(b, 3, k) {
        Some((lo, hi)) => field_value(b, lo, hi, i64::MIN, i64::MAX),
        None => 0,
    }
}

fn text_at(b: &[u8], k: usize) -> (r: String)
    requires
        b@.len() >= 3,
    ensures
        r@ == text_field(b@, k as nat),
{
    match locate_field(b, 3, k) {
        Some((lo, hi)) => text_in(b, lo, hi),
        None => String::new(),
    }
}

fn direction_at(b: &[u8], k: usize) -> (r: Option<Direction>)
    requires
        b@.len() >= 3,
    ensures
        r == direction_field(b@, k as nat),
{
    match locate_field(b, 3, k) {
        Some((lo, hi)) => parse_direction(copy_range(b, lo, hi).as_slice()),
        None => None,
    }
}

fn point_at(b: &[u8], k: usize) -> (r: Point)
    requires
        b@.len() >= 3,
    ensures
        r == point_field(b@, k as nat),
{
    match locate_field(b, 3, k) {
        Some((lo, hi)) => parse_point(copy_range(b, lo, hi).as_slice()),
        None => Point { x: 0, y: 0 },
    }
}

/// Decodes a frame of at least three bytes by its opcode. Numeric fields
/// that do not parse read as 0; an unknown opcode is `Nothing`.
pub fn decode_frame(b: &[u8]) -> (r: Message)
    requires
        b@.len() >= 3,
    ensures
        r@ == frame_model(b@),
{
    let n = b.len();
    if has_opcode(b, 76, 49, 59) {
        let id = text_in(b, 3, n);
        assert(b@.subrange(3, n as int) =~= b@.skip(3));
        Message::Login { id }
    } else if has_opcode(b, 80, 48, 59) {
        let payload = copy_range(b, 3, n);
        assert(b@.subrange(3, n as int) =~= b@.skip(3));
        Message::Snapshot { payload }
    } else if has_opcode(b, 77, 48, 59) {
        Message::Move { timestamp: timestamp_at(b, 0), id: text_at(b, 1), direction: direction_at(b, 2) }
    } else if has_opcode(b, 83, 48, 59) {
        Message::Sync { timestamp: timestamp_at(b, 0), id: text_at(b, 1), position: point_at(b, 2) }
    } else {
        Message::Nothing
    }
}

/// Decodes a datagram: `MalformedFrame` for fewer than three bytes or bytes
/// that are not UTF-8, else the message that the frame carries.
pub fn decode(b: &[u8]) -> (r: Result<Message, CodecError>)
    ensures
        match decode_model(b@) {
            Ok(m) => r matches Ok(v) && v@ == m,
            Err(e) => r == Err::<Message, CodecError>(e),
        },
{
    if b.len() < 3 {
        return Err(CodecError::MalformedFrame);
    }
    match string_from_utf8(copy_range(b, 0, b.len())) {
        None => {
            assert(b@.subrange(0, b@.len() as int) =~= b@);
            Err(CodecError::MalformedFrame)
        },
        Some(_) => {
            assert(b@.subrange(0, b@.len() as int) =~= b@);
            Ok(decode_frame(b))
        },
    }
}

/// The JSON payload of a datagram that decodes to a snapshot; `None` for
/// any other datagram, malformed ones included.
pub fn snapshot_payload(datagram: &[u8]) -> (r: Option<Vec<u8>>)
    ensures
        match decode_model(datagram@) {
            Ok(MessageModel::Snapshot { payload }) => r matches Some(p) && p@ == payload,
            _ => r is None,
        },
{
    match decode(datagram) {
        Ok(Message::Snapshot { payload }) => Some(payload),
        _ => None,
    }
}

/// The velocity ordinal that a direction field gives: the ordinal of the
/// direction it names (by token or by digit), or stationary where it names
/// none.
pub fn velocity_of_field(f: &[u8]) -> (r: u8)
    ensures
        r == match direction_of_field(f@) {
            Some(d) => ordinal_of(d),
            None => ordinal_of(Direction::Stationary),
        },
{
    match parse_direction(f) {
        Some(d) => d.ordinal(),
        None => Direction::Stationary.ordinal(),
    }
}

/// Of the snapshot payloads that arrived since the last tick, in arrival
/// order, the most recent one; the older ones are superseded.
pub fn newest_snapshot(pending: Vec<Vec<u8>>) -> (r: Option<Vec<u8>>)
    ensures
        pending@.len() == 0 ==> r is None,
        pending@.len() > 0 ==> (r matches Some(p) && p@ == pending@.last()@),
{
    let mut pending = pending;
    pending.pop()
}

/// `M0;timestamp;id;direction`, with the direction as its named token.
pub open spec fn move_frame(timestamp: int, id: Seq<char>, d: Direction) -> Seq<u8> {
    op_move() + decimal_of(timestamp) + seq![SEP] + encode_utf8(id) + seq![SEP] + name_bytes(d)
}

/// `{"x":X,"y":Y}`
pub open spec fn point_text(p: Point) -> Seq<u8> {
    x_key() + decimal_of(p.x as int) + y_key() + decimal_of(p.y as int) + seq![CLOSE_BRACE]
}

/// `S0;timestamp;id;{"x":X,"y":Y}`
pub open spec fn sync_frame(timestamp: int, id: Seq<char>, p: Point) -> Seq<u8> {
    op_sync() + decimal_of(timestamp) + seq![SEP] + encode_utf8(id) + seq![SEP] + point_text(p)
}

/// `L1;timestamp;id;skin;name`
pub open spec fn login_frame(timestamp: int, id: Seq<char>, skin: int, name: Seq<char>) -> Seq<u8> {
    op_login() + decimal_of(timestamp) + seq![SEP] + encode_utf8(id) + seq![SEP] + decimal_of(skin)
        + seq![SEP] + encode_utf8(name)
}

fn push_all(out: &mut Vec<u8>, src: &[u8])
    ensures
        final(out)@ == old(out)@ + src@,
{
    let mut i: usize = 0;
    while i < src.len()
        invariant
            0 <= i <= src@.len(),
            out@ == old(out)@ + src@.take(i as int),
        decreases src@.len() - i,
    {
        out.push(src[i]);
        i = i + 1;
        assert(out@ =~= old(out)@ + src@.take(i as int));
    }
    assert(src@.take(src@.len() as int) =~= src@);
}

fn push_field_start(out: &mut Vec<u8>, timestamp: i64, id: &str)
    ensures
        final(out)@ == old(out)@ + decimal_of(timestamp as int) + seq![SEP] + encode_utf8(id@)
            + seq![SEP],
{
    push_decimal(out, timestamp);
    out.push(SEP);
    push_all(out, id.as_bytes());
    out.push(SEP);
    assert(final(out)@ =~= old(out)@ + decimal_of(timestamp as int) + seq![SEP] + encode_utf8(id@)
        + seq![SEP]);
}

/// The move command `M0;timestamp;id;direction`.
pub fn encode_move(timestamp: i64, id: &str, direction: Direction) -> (r: Vec<u8>)
    ensures
        r@ == move_frame(timestamp as int, id@, direction),
{
    let mut out: Vec<u8> = vec![77u8, 48u8, SEP];
    push_field_start(&mut out, timestamp, id);
    push_all(&mut out, direction_name(direction).as_slice());
    assert(out@ =~= move_frame(timestamp as int, id@, direction));
    out
}

/// The position sync `S0;timestamp;id;{"x":X,"y":Y}`.
pub fn encode_sync(timestamp: i64, id: &str, position: Point) -> (r: Vec<u8>)
    ensures
        r@ == sync_frame(timestamp as int, id@, position),
{
    let mut out: Vec<u8> = vec![83u8, 48u8, SEP];
    push_field_start(&mut out, timestamp, id);
    let ghost before = out@;
    push_all(&mut out, vec![123u8, 34u8, 120u8, 34u8, 58u8].as_slice());
    push_decimal(&mut out, position.x as i64);
    push_all(&mut out, vec![COMMA, 34u8, 121u8, 34u8, 58u8].as_slice());
    push_decimal(&mut out, position.y as i64);
    out.push(CLOSE_BRACE);
    assert(out@ =~= before + point_text(position));
    assert(out@ =~= sync_frame(timestamp as int, id@, position));
    out
}

/// The login request `L1;timestamp;id;skin;name`.
pub fn encode_login(timestamp: i64, id: &str, skin: u32, name: &str) -> (r: Vec<u8>)
    ensures
        r@ == login_frame(timestamp as int, id@, skin as int, name@),
{
    let mut out: Vec<u8> = vec![76u8, 49u8, SEP];
    push_field_start(&mut out, timestamp, id);
    push_decimal(&mut out, skin as i64);
    out.push(SEP);
    push_all(&mut out, name.as_bytes());
    assert(out@ =~= login_frame(timestamp as int, id@, skin as int, name@));
    out
}

pub open spec fn ascii(b: Seq<u8>) -> bool {
    forall|i: int| 0 <= i < b.len() ==> #[trigger] b[i] <= 0x7f
}

pub open spec fn free_of(b: Seq<u8>, c: u8) -> bool {
    forall|i: int| 0 <= i < b.len() ==> #[trigger] b[i] != c
}

proof fn lemma_ascii_valid_utf8(b: Seq<u8>)
    requires
        ascii(b),
    ensures
        valid_utf8(b),
    decreases b.len(),
{
    if b.len() > 0 {
        let b0 = b[0];
        assert(((b0 & 0x7F) as u32) <= 0x7f) by (bit_vector);
        let rest = b.subrange(1, b.len() as int);
        lemma_ascii_valid_utf8(rest);
        assert(vstd::utf8::pop_first_scalar(b) =~= rest);
    }
}

/// Text without the character `c` encodes to bytes without the byte `c`.
proof fn lemma_encoding_free_of(cs: Seq<char>, c: u8)
    requires
        c <= 0x7f,
        forall|i: int| 0 <= i < cs.len() ==> (#[trigger] cs[i]) as u32 != c as u32,
    ensures
        free_of(encode_utf8(cs), c),
    decreases cs.len(),
{
    if cs.len() > 0 {
        let v = cs[0] as u32;
        lemma_encoding_free_of(cs.drop_first(), c);
        let head = vstd::utf8::encode_scalar(v);
        assert(free_of(head, c)) by {
            assert(v <= 0x7f ==> (v & 0x7F) as u8 != c) by (bit_vector)
                requires
                    v != c as u32,
                    c <= 0x7f,
            ;
            assert((0xC0u8 | ((v >> 6u32) & 0x1F) as u8) != c) by (bit_vector)
                requires
                    c <= 0x7f,
            ;
            assert((0xE0u8 | ((v >> 12u32) & 0x0F) as u8) != c) by (bit_vector)
                requires
                    c <= 0x7f,
            ;
            assert((0xF0u8 | ((v >> 18u32) & 0x7) as u8) != c) by (bit_vector)
                requires
                    c <= 0x7f,
            ;
            assert((0x80u8 | (v & 0x3F) as u8) != c) by (bit_vector)
                requires
                    c <= 0x7f,
            ;
            assert((0x80u8 | ((v >> 6u32) & 0x3F) as u8) != c) by (bit_vector)
                requires
                    c <= 0x7f,
            ;
            assert((0x80u8 | ((v >> 12u32) & 0x3F) as u8) != c) by (bit_vector)
                requires
                    c <= 0x7f,
            ;
        }
        let tail = encode_utf8(cs.drop_first());
        assert(encode_utf8(cs) == head + tail);
        assert forall|i: int| 0 <= i < encode_utf8(cs).len() implies #[trigger] encode_utf8(cs)[i]
            != c by {
            if i < head.len() {
                assert(encode_utf8(cs)[i] == head[i]);
            } else {
                assert(encode_utf8(cs)[i] == tail[i - head.len()]);
            }
        }
    }
}

/// A run of bytes without `;` that ends at a `;` or at the end is one field.
proof fn lemma_segment(s: Seq<u8>, lo: int, seg: Seq<u8>)
    requires
        0 <= lo,
        lo + seg.len() <= s.len(),
        s.subrange(lo, lo + seg.len()) == seg,
        free_of(seg, SEP),
        lo + seg.len() == s.len() || s[lo + seg.len()] == SEP,
    ensures
        next_byte(s, lo, SEP) == lo + seg.len(),
    decreases seg.len(),
{
    if seg.len() > 0 {
        assert(s[lo] == seg[0]);
        assert(s.subrange(lo + 1, lo + seg.len()) =~= seg.drop_first());
        lemma_segment(s, lo + 1, seg.drop_first());
    }
}

proof fn lemma_direction_names(d: Direction)
    ensures
        direction_of_field(name_bytes(d)) == Some(d),
        ascii(name_bytes(d)),
        free_of(name_bytes(d), SEP),
{
    let n = name_bytes(d);
    match d {
        Direction::Stationary => {},
        Direction::Up => {
            assert(n.len() != name_bytes(Direction::Stationary).len());
        },
        Direction::Right => {
            assert(n.len() != name_bytes(Direction::Stationary).len());
            assert(n.len() != name_bytes(Direction::Up).len());
        },
        Direction::Down => {
            assert(n.len() != name_bytes(Direction::Stationary).len());
            assert(n.len() != name_bytes(Direction::Up).len());
            assert(n.len() != name_bytes(Direction::Right).len());
        },
        Direction::Left => {
            assert(n.len() != name_bytes(Direction::Stationary).len());
            assert(n.len() != name_bytes(Direction::Up).len());
            assert(n.len() != name_bytes(Direction::Right).len());
            assert(n[0] != name_bytes(Direction::Down)[0]);
        },
    }
}

/// The frame layout `op + a + ; + text + ; + c`, with `a` and `c` ASCII and
/// free of `;`, and `text` free of `;`: its fields are `a`, the text and `c`.
proof fn lemma_three_fields(op: Seq<u8>, a: Seq<u8>, id: Seq<char>, c: Seq<u8>)
    requires
        op.len() == 3,
        ascii(op),
        ascii(a),
        ascii(c),
        free_of(a, SEP),
        free_of(c, SEP),
        forall|i: int| 0 <= i < id.len() ==> (#[trigger] id[i]) as u32 != SEP as u32,
    ensures
        ({
            let f = op + a + seq![SEP] + encode_utf8(id) + seq![SEP] + c;
            &&& valid_utf8(f)
            &&& f.take(3) == op
            &&& field_bounds(f, 3, 0) matches Some((lo, hi)) && f.subrange(lo, hi) == a
            &&& field_bounds(f, 3, 1) matches Some((lo, hi)) && f.subrange(lo, hi) == encode_utf8(id)
            &&& field_bounds(f, 3, 2) matches Some((lo, hi)) && f.subrange(lo, hi) == c
        }),
{
    let e = encode_utf8(id);
    let f = op + a + seq![SEP] + e + seq![SEP] + c;
    lemma_encoding_free_of(id, SEP);
    vstd::utf8::encode_utf8_valid_utf8(id);
    let left = op + a + seq![SEP];
    let right = seq![SEP] + c;
    lemma_ascii_valid_utf8(left);
    lemma_ascii_valid_utf8(right);
    vstd::utf8::valid_utf8_concat(left, e);
    vstd::utf8::valid_utf8_concat(left + e, right);
    assert(f =~= left + e + right);
    assert(f.take(3) =~= op);
    let p: int = 3 + a.len() as int;
    let q: int = p + 1 + e.len();
    assert(f.subrange(3, p) =~= a);
    assert(f[p] == SEP);
    lemma_segment(f, 3, a);
    assert(field_bounds(f, 3, 0) == Some((3int, p)));
    assert(f.subrange(p + 1, q) =~= e);
    assert(f[q] == SEP);
    lemma_segment(f, p + 1, e);
    assert(field_bounds(f, p + 1, 0) == Some((p + 1, q)));
    assert(field_bounds(f, 3, 1) == Some((p + 1, q)));
    assert(f.subrange(q + 1, f.len() as int) =~= c);
    lemma_segment(f, q + 1, c);
    assert(field_bounds(f, q + 1, 0) == Some((q + 1, f.len() as int)));
    assert(field_bounds(f, p + 1, 1) == Some((q + 1, f.len() as int)));
    assert(field_bounds(f, 3, 2) == Some((q + 1, f.len() as int)));
}

proof fn lemma_decimal_field(v: int)
    ensures
        ascii(decimal_of(v)),
        free_of(decimal_of(v), SEP),
        free_of(decimal_of(v), COMMA),
        integer_value(decimal_of(v), true) == Some(v),
{
    crate::decimal::lemma_decimal_round_trip(v);
}

/// Decoding an encoded move command gives back its timestamp, id and
/// direction, for every id without a `;`.
pub proof fn lemma_move_round_trip(timestamp: i64, id: Seq<char>, d: Direction)
    requires
        forall|i: int| 0 <= i < id.len() ==> #[trigger] id[i] != ';',
    ensures
        decode_model(move_frame(timestamp as int, id, d)) == Ok::<MessageModel, CodecError>(
            MessageModel::Move { timestamp, id, direction: Some(d) },
        ),
{
    let a = decimal_of(timestamp as int);
    let c = name_bytes(d);
    lemma_decimal_field(timestamp as int);
    lemma_direction_names(d);
    assert forall|i: int| 0 <= i < id.len() implies (#[trigger] id[i]) as u32 != SEP as u32 by {
        if id[i] as u32 == 59 {
            vstd::utf8::char_u32_cast(id[i], 59u32);
            assert((59u32 as char) == ';');
        }
    }
    lemma_three_fields(op_move(), a, id, c);
    let f = move_frame(timestamp as int, id, d);
    vstd::utf8::encode_utf8_decode_utf8(id);
    vstd::utf8::encode_utf8_valid_utf8(id);
    assert(f.take(3) != op_login());
    assert(f.take(3) != op_snapshot());
}

proof fn lemma_point_text(p: Point)
    ensures
        ascii(point_text(p)),
        free_of(point_text(p), SEP),
        point_of_field(point_text(p)) == p,
{
    let dx = decimal_of(p.x as int);
    let dy = decimal_of(p.y as int);
    lemma_decimal_field(p.x as int);
    lemma_decimal_field(p.y as int);
    let f = point_text(p);
    let n = f.len() as int;
    let c: int = 5 + dx.len() as int;
    assert(f.take(5) =~= x_key());
    assert(f.subrange(5, c) =~= dx);
    assert(f.subrange(c, c + 5) =~= y_key());
    assert(f.subrange(c + 5, n - 1) =~= dy);
    assert(f[n - 1] == CLOSE_BRACE);
    assert(f[c] == COMMA);
    assert(next_byte(f, 5, COMMA) == c) by {
        assert forall|k: int| 5 <= k <= c implies next_byte(f, k, COMMA) == c by {
            lemma_next_byte_run(f, k, c);
        }
    }
    assert forall|i: int| 0 <= i < n implies #[trigger] f[i] <= 0x7f && f[i] != SEP by {
        if 5 <= i < c {
            assert(f[i] == dx[i - 5]);
        } else if c + 5 <= i < n - 1 {
            assert(f[i] == dy[i - c - 5]);
        } else if i < 5 {
            assert(f[i] == x_key()[i]);
        } else if i < c + 5 {
            assert(f[i] == y_key()[i - c]);
        }
    }
}

proof fn lemma_next_byte_run(f: Seq<u8>, k: int, c: int)
    requires
        5 <= k <= c < f.len(),
        f[c] == COMMA,
        forall|i: int| 5 <= i < c ==> #[trigger] f[i] != COMMA,
    ensures
        next_byte(f, k, COMMA) == c,
    decreases c - k,
{
    if k < c {
        lemma_next_byte_run(f, k + 1, c);
    }
}

/// Decoding an encoded position sync gives back its timestamp, id and
/// position, for every id without a `;`.
pub proof fn lemma_sync_round_trip(timestamp: i64, id: Seq<char>, p: Point)
    requires
        forall|i: int| 0 <= i < id.len() ==> #[trigger] id[i] != ';',
    ensures
        decode_model(sync_frame(timestamp as int, id, p)) == Ok::<MessageModel, CodecError>(
            MessageModel::Sync { timestamp, id, position: p },
        ),
{
    let a = decimal_of(timestamp as int);
    let c = point_text(p);
    lemma_decimal_field(timestamp as int);
    lemma_point_text(p);
    assert forall|i: int| 0 <= i < id.len() implies (#[trigger] id[i]) as u32 != SEP as u32 by {
        if id[i] as u32 == 59 {
            vstd::utf8::char_u32_cast(id[i], 59u32);
            assert((59u32 as char) == ';');
        }
    }
    lemma_three_fields(op_sync(), a, id, c);
    vstd::utf8::encode_utf8_decode_utf8(id);
    vstd::utf8::encode_utf8_valid_utf8(id);
    let f = sync_frame(timestamp as int, id, p);
    assert(f.take(3) != op_login());
    assert(f.take(3) != op_snapshot());
    assert(f.take(3) != op_move());
}

/// Every direction reads back from its named token, and from its legacy
/// ordinal digit.
pub proof fn lemma_direction_token_round_trip(d: Direction)
    ensures
        direction_of_field(name_bytes(d)) == Some(d),
        direction_of_field(seq![(48 + ordinal_of(d)) as u8]) == Some(d),
{
    lemma_direction_names(d);
    let digit = seq![(48 + ordinal_of(d)) as u8];
    assert(digit.len() == 1);
    assert(digit.len() != name_bytes(Direction::Stationary).len());
    assert(digit.len() != name_bytes(Direction::Up).len());
    assert(digit.len() != name_bytes(Direction::Right).len());
    assert(digit.len() != name_bytes(Direction::Down).len());
    assert(digit.len() != name_bytes(Direction::Left).len());
}

} // verus!
