//! Benchmarking library for a threshold asynchronous verifiable secret
//! sharing protocol built on KZG polynomial commitments.
//!
//! The crate holds the protocol and orchestration logic: wire codecs,
//! the dealer and share-holder state machines, the verification rules
//! that decide acceptance of shares and signatures, and the evaluation
//! engine that sweeps parameter variations and aggregates timings.
#![verifier::loop_isolation(false)]
use vstd::prelude::*;

pub mod bytes_le;
pub mod config_treatment;
pub mod crypto;
pub mod node;
pub mod protocol;
pub mod interface;

verus! {

/// Capacity increment for growable message buffers.
pub const BASE_CAPACITY: usize = 2000;

/// Commands a share-holding node accepts, as the first byte of a message.
#[derive(Debug, Clone, Copy, PartialEq, Eq, Structural)]
pub enum CommandCode {
    DEALTHIS,
    SHARE,
    ACK,
    REST,
    SETUP,
    KEY,
    RECONSTRUCT,
    NEWSHARE,
    STOP,
}

impl CommandCode {
    /// Wire encoding of the command, one byte.
    pub fn to_u8(self) -> (r: u8)
        ensures
            r == self.as_byte(),
    {
        match self {
            CommandCode::DEALTHIS => 0,
            CommandCode::SHARE => 1,
            CommandCode::ACK => 2,
            CommandCode::REST => 3,
            CommandCode::SETUP => 4,
            CommandCode::KEY => 5,
            CommandCode::RECONSTRUCT => 6,
            CommandCode::NEWSHARE => 7,
            CommandCode::STOP => 8,
        }
    }

    /// The byte that stands for the command on the wire.
    pub open spec fn as_byte(self) -> u8 {
        match self {
            CommandCode::DEALTHIS => 0,
            CommandCode::SHARE => 1,
            CommandCode::ACK => 2,
            CommandCode::REST => 3,
            CommandCode::SETUP => 4,
            CommandCode::KEY => 5,
            CommandCode::RECONSTRUCT => 6,
            CommandCode::NEWSHARE => 7,
            CommandCode::STOP => 8,
        }
    }

    /// Decodes a command byte; every byte above 8 is refused.
    pub fn from_u8(v: u8) -> (r: Option<CommandCode>)
        ensures
            match r {
                Some(c) => c.as_byte() == v,
                None => v > 8,
            },
    {
        match v {
            0 => Some(CommandCode::DEALTHIS),
            1 => Some(CommandCode::SHARE),
            2 => Some(CommandCode::ACK),
            3 => Some(CommandCode::REST),
            4 => Some(CommandCode::SETUP),
            5 => Some(CommandCode::KEY),
            6 => Some(CommandCode::RECONSTRUCT),
            7 => Some(CommandCode::NEWSHARE),
            8 => Some(CommandCode::STOP),
            _ => None,
        }
    }
}

/// Commands the orchestrator accepts, as the first byte of a message.
#[derive(Debug, Clone, Copy, PartialEq, Eq, Structural)]
pub enum InterfaceCode {
    CONNECT,
    INTERRUPT,
    OUTPUT,
    FROMFILE,
}

impl InterfaceCode {
    /// Wire encoding of the command, one byte.
    pub fn to_u8(self) -> (r: u8)
        ensures
            r == self.as_byte(),
    {
        match self {
            InterfaceCode::CONNECT => 0,
            InterfaceCode::INTERRUPT => 1,
            InterfaceCode::OUTPUT => 2,
            InterfaceCode::FROMFILE => 3,
        }
    }

    /// The byte that stands for the command on the wire.
    pub open spec fn as_byte(self) -> u8 {
        match self {
            InterfaceCode::CONNECT => 0,
            InterfaceCode::INTERRUPT => 1,
            InterfaceCode::OUTPUT => 2,
            InterfaceCode::FROMFILE => 3,
        }
    }

    /// Decodes a command byte; every byte above 3 is refused.
    pub fn from_u8(v: u8) -> (r: Option<InterfaceCode>)
        ensures
            match r {
                Some(c) => c.as_byte() == v,
                None => v > 3,
            },
    {
        match v {
            0 => Some(InterfaceCode::CONNECT),
            1 => Some(InterfaceCode::INTERRUPT),
            2 => Some(InterfaceCode::OUTPUT),
            3 => Some(InterfaceCode::FROMFILE),
            _ => None,
        }
    }
}

/// Modeled behaviour of a participant: honest, or a sleeper that
/// ignores every protocol message.
#[derive(Debug, Clone, Copy, PartialEq, Eq, Structural)]
pub enum ByzComp {
    Honnest,
    Sleeper,
}

impl ByzComp {
    /// Wire encoding of the behaviour, one byte.
    pub fn to_u8(self) -> (r: u8)
        ensures
            r == self.as_byte(),
    {
        match self {
            ByzComp::Honnest => 0,
            ByzComp::Sleeper => 1,
        }
    }

    /// The byte that stands for the behaviour on the wire.
    pub open spec fn as_byte(self) -> u8 {
        match self {
            ByzComp::Honnest => 0,
            ByzComp::Sleeper => 1,
        }
    }

    /// The behaviour as a 16-bit value, for storage in a parameter field.
    pub fn to_u16(&self) -> (r: u16)
        ensures
            r == self.as_byte() as u16,
    {
        match self {
            ByzComp::Honnest => 0,
            ByzComp::Sleeper => 1,
        }
    }

    /// Decodes a behaviour byte; every byte above 1 is refused.
    pub fn from_u8(v: u8) -> (r: Option<ByzComp>)
        ensures
            match r {
                Some(c) => c.as_byte() == v,
                None => v > 1,
            },
    {
        match v {
            0 => Some(ByzComp::Honnest),
            1 => Some(ByzComp::Sleeper),
            _ => None,
        }
    }
}

/// Outcome of one phase at one node, carried in its OUTPUT message.
#[derive(Debug, Clone, Copy, PartialEq, Eq, Structural)]
pub enum ErrorCode {
    OK,
    UnvalidSigns,
    UnvalidShares,
    IncoherentBatch,
    MissingShare,
}

impl ErrorCode {
    /// Wire encoding of the outcome, one byte.
    pub fn to_u8(self) -> (r: u8)
        ensures
            r == self.as_byte(),
    {
        match self {
            ErrorCode::OK => 0,
            ErrorCode::UnvalidSigns => 1,
            ErrorCode::UnvalidShares => 2,
            ErrorCode::IncoherentBatch => 3,
            ErrorCode::MissingShare => 4,
        }
    }

    /// The byte that stands for the outcome on the wire.
    pub open spec fn as_byte(self) -> u8 {
        match self {
            ErrorCode::OK => 0,
            ErrorCode::UnvalidSigns => 1,
            ErrorCode::UnvalidShares => 2,
            ErrorCode::IncoherentBatch => 3,
            ErrorCode::MissingShare => 4,
        }
    }

    /// Decodes an outcome byte; every byte above 4 is refused.
    pub fn from_u8(v: u8) -> (r: Option<ErrorCode>)
        ensures
            match r {
                Some(c) => c.as_byte() == v,
                None => v > 4,
            },
    {
        match v {
            0 => Some(ErrorCode::OK),
            1 => Some(ErrorCode::UnvalidSigns),
            2 => Some(ErrorCode::UnvalidShares),
            3 => Some(ErrorCode::IncoherentBatch),
            4 => Some(ErrorCode::MissingShare),
            _ => None,
        }
    }
}

/// Phase of the protocol a measurement belongs to.
#[derive(PartialEq, Eq, Structural, Clone, Copy, Debug)]
pub enum Step {
    Sharing,
    Reconstruct,
}

/// What is being measured: throughput (Debit) or per-phase latency,
/// each tagged with the phase it currently measures.
#[derive(Debug, Clone, Copy, PartialEq, Eq, Structural)]
pub enum Evaluation {
    Debit(Step),
    Latency(Step),
}

impl Evaluation {
    /// True on the latency variants.
    pub fn is_latency(&self) -> (r: bool)
        ensures
            r == self matches Evaluation::Latency(_),
    {
        matches!(self, Evaluation::Latency(_))
    }

    /// True on the throughput variants.
    pub fn is_debit(&self) -> (r: bool)
        ensures
            r == self matches Evaluation::Debit(_),
    {
        matches!(self, Evaluation::Debit(_))
    }

    /// The phase carried inside either variant.
    pub open spec fn step(self) -> Step {
        match self {
            Evaluation::Debit(s) => s,
            Evaluation::Latency(s) => s,
        }
    }

    /// True when the carried phase is Reconstruct.
    pub fn is_reconstruct(&self) -> (r: bool)
        ensures
            r == (self.step() == Step::Reconstruct),
    {
        let step = match self {
            Evaluation::Debit(s) => s,
            Evaluation::Latency(s) => s,
        };
        *step == Step::Reconstruct
    }

    /// Replaces the carried phase, keeping the metric kind.
    pub fn change_step(&mut self, step: Step)
        ensures
            final(self).step() == step,
            (*final(self) matches Evaluation::Debit(_)) == (*old(self) matches Evaluation::Debit(_)),
    {
        let new_self = match self {
            Evaluation::Debit(_) => Evaluation::Debit(step),
            Evaluation::Latency(_) => Evaluation::Latency(step),
        };
        *self = new_self;
    }
}

/// The longest prefix of `buf` that ends at its last non-zero byte.
pub open spec fn trimmed(buf: Seq<u8>) -> Seq<u8>
    decreases buf.len(),
{
    if buf.len() == 0 {
        buf
    } else if buf[buf.len() - 1] != 0 {
        buf
    } else {
        trimmed(buf.drop_last())
    }
}

/// Strips the trailing zero bytes of a buffer, as used to undo the
/// zero padding of fixed-size receive buffers.
pub fn trim_buf(buf: &[u8]) -> (r: &[u8])
    ensures
        r@ == trimmed(buf@),
{
    let mut pos: usize = buf.len();
    proof {
        assert(buf@.subrange(0, buf@.len() as int) =~= buf@);
    }
    while pos > 0 && buf[pos - 1] == 0
        invariant
            pos <= buf.len(),
            trimmed(buf@.subrange(0, pos as int)) == trimmed(buf@),
        decreases pos,
    {
        proof {
            assert(buf@.subrange(0, pos as int).drop_last() =~= buf@.subrange(0, pos - 1 as int));
        }
        pos = pos - 1;
    }
    let r = vstd::slice::slice_subrange(buf, 0, pos);
    proof {
        if pos > 0 {
            assert(trimmed(buf@.subrange(0, pos as int)) =~= buf@.subrange(0, pos as int));
        } else {
            assert(buf@.subrange(0, 0) =~= Seq::<u8>::empty());
        }
    }
    r
}

/// Index of the first occurrence of `c` in `s` at or after `from`,
/// or `s.len()` when there is none.
pub open spec fn index_of_char(s: Seq<char>, c: char, from: int) -> int
    decreases s.len() - from,
{
    if from < 0 || from >= s.len() {
        s.len() as int
    } else if s[from] == c {
        from
    } else {
        index_of_char(s, c, from + 1)
    }
}

/// True when every character of `s` is a decimal digit.
pub open spec fn all_digits(s: Seq<char>) -> bool {
    forall|i: int| 0 <= i < s.len() ==> '0' <= #[trigger] s[i] <= '9'
}

/// The number a string of decimal digits stands for.
pub open spec fn digits_value(s: Seq<char>) -> nat
    decreases s.len(),
{
    if s.len() == 0 {
        0
    } else {
        (digits_value(s.drop_last()) * 10 + (s.last() as nat - '0' as nat)) as nat
    }
}

/// The digit run of an address `ip:port[:...]`: what stands between the
/// first colon and the next colon or the end.
pub open spec fn port_digits(s: Seq<char>) -> Seq<char> {
    let c1 = index_of_char(s, ':', 0);
    let c2 = index_of_char(s, ':', c1 + 1);
    s.subrange(c1 + 1, c2)
}

/// True when an address carries a parseable port: a colon followed by
/// one or more digits whose value fits in a u16.
pub open spec fn has_valid_port(s: Seq<char>) -> bool {
    &&& index_of_char(s, ':', 0) < s.len()
    &&& port_digits(s).len() >= 1
    &&& all_digits(port_digits(s))
    &&& digits_value(port_digits(s)) <= u16::MAX
}

/// Character-by-character string equality.
pub fn str_eq(a: &str, b: &str) -> (r: bool)
    ensures
        r == (a@ == b@),
{
    let alen = a.unicode_len();
    let blen = b.unicode_len();
    if alen != blen {
        proof {
            assert(a@ != b@);
        }
        return false;
    }
    let mut i: usize = 0;
    while i < alen
        invariant
            i <= alen,
            alen == a@.len(),
            alen == b@.len(),
            forall|j: int| 0 <= j < i ==> a@[j] == b@[j],
        decreases alen - i,
    {
        if a.get_char(i) != b.get_char(i) {
            return false;
        }
        i = i + 1;
    }
    proof {
        assert(a@ =~= b@);
    }
    true
}

/// Position of the first `c` at or after `from`, or the length when absent.
fn find_char(s: &str, c: char, from: usize) -> (r: usize)
    requires
        from <= s@.len(),
    ensures
        r == index_of_char(s@, c, from as int),
        from <= r <= s@.len(),
        r < s@.len() ==> s@[r as int] == c,
{
    let len = s.unicode_len();
    let mut i: usize = from;
    while i < len
        invariant
            from <= i <= len,
            len == s@.len(),
            index_of_char(s@, c, from as int) == index_of_char(s@, c, i as int),
        decreases len - i,
    {
        if s.get_char(i) == c {
            return i;
        }
        i = i + 1;
    }
    i
}

/// The port of an address written `ip:port`, the digits after the
/// first colon read as a decimal number.
pub fn extract_port(addr: &str) -> (r: u16)
    requires
        has_valid_port(addr@),
    ensures
        r as nat == digits_value(port_digits(addr@)),
{
    let len = addr.unicode_len();
    let c1 = find_char(addr, ':', 0);
    let c2 = find_char(addr, ':', c1 + 1);
    let ghost seg = port_digits(addr@);
    let mut val: u16 = 0;
    let mut i: usize = c1 + 1;
    proof {
        assert(addr@.subrange(c1 + 1, c1 + 1) =~= seg.subrange(0, 0));
    }
    while i < c2
        invariant
            c1 + 1 <= i <= c2 <= len,
            len == addr@.len(),
            c2 == index_of_char(addr@, ':', c1 + 1),
            seg == port_digits(addr@),
            seg == addr@.subrange(c1 + 1, c2 as int),
            has_valid_port(addr@),
            val as nat == digits_value(seg.subrange(0, i - c1 - 1)),
        decreases c2 - i,
    {
        let d = addr.get_char(i);
        proof {
            assert(seg[i - c1 - 1] == addr@[i as int]);
            assert(seg.subrange(0, i - c1).drop_last() =~= seg.subrange(0, i - c1 - 1));
            assert(seg.subrange(0, i - c1).last() == d);
            lemma_digits_value_prefix_bound(seg, i - c1);
        }
        val = val * 10 + ((d as u32 as u16) - ('0' as u32 as u16));
        i = i + 1;
    }
    proof {
        assert(seg.subrange(0, c2 - c1 - 1) =~= seg);
    }
    val
}

/// A digit-string prefix never stands for more than the whole string.
proof fn lemma_digits_value_prefix_bound(s: Seq<char>, n: int)
    requires
        0 < n <= s.len(),
        all_digits(s),
    ensures
        digits_value(s.subrange(0, n)) <= digits_value(s),
    decreases s.len() - n,
{
    if n == s.len() {
        assert(s.subrange(0, n) =~= s);
    } else {
        lemma_digits_value_prefix_bound(s, n + 1);
        assert(s.subrange(0, n + 1).drop_last() =~= s.subrange(0, n));
        assert(digits_value(s.subrange(0, n + 1)) >= digits_value(s.subrange(0, n)) * 10);
    }
}

/// The text before the first colon of an address, the whole address
/// when it has no colon.
pub fn extract_ip(addr: &str) -> (r: String)
    requires
        addr.is_ascii(),
    ensures
        r@ == addr@.subrange(0, index_of_char(addr@, ':', 0)),
{
    let c1 = find_char(addr, ':', 0);
    addr.substring_ascii(0, c1).to_owned()
}

/// Writes `vec`, prefixed by its u32 little-endian length, into
/// `bytes` at offset `at`; returns how many bytes were written.
pub fn write_bytes(bytes: &mut Vec<u8>, at: usize, vec: &[u8]) -> (r: u32)
    requires
        at + 4 + vec@.len() <= old(bytes)@.len(),
        vec@.len() + 4 <= 0xffff_ffff,
    ensures
        r == 4 + vec@.len(),
        final(bytes)@.len() == old(bytes)@.len(),
        final(bytes)@ =~= old(bytes)@.subrange(0, at as int) + bytes_le::le_bytes(
            vec@.len(),
            4,
        ) + vec@ + old(bytes)@.subrange(at + 4 + vec@.len(), old(bytes)@.len() as int),
{
    let blen = bytes.len();
    let len_bytes = bytes_le::le_write(vec.len() as u128, 4);
    bytes_le::splice(bytes, at, len_bytes.as_slice());
    bytes_le::splice(bytes, at + 4, vec);
    4 + (vec.len() as u32)
}

/// Writes `vec`, length-prefixed, into the growable buffer `bytes` at
/// offset `index`, first extending the buffer with zero bytes until
/// the write fits with room to spare; returns how many bytes were written.
pub fn write_vec(bytes: &mut Vec<u8>, index: usize, vec: &[u8]) -> (r: u32)
    requires
        index <= old(bytes)@.len(),
        vec@.len() + 4 <= 0xffff_ffff,
        2 * (index + vec@.len() + 4) + 10 + BASE_CAPACITY <= usize::MAX,
    ensures
        r == 4 + vec@.len(),
        final(bytes)@.len() >= index + 4 + vec@.len(),
        final(bytes)@.subrange(0, index as int) =~= old(bytes)@.subrange(0, index as int),
        final(bytes)@.subrange(index as int, index + 4 + vec@.len()) =~= bytes_le::le_bytes(
            vec@.len(),
            4,
        ) + vec@,
{
    let needed = index + vec.len() + 4;
    while bytes.len() / 5 * 4 <= needed
        invariant
            needed == index + vec@.len() + 4,
            index <= bytes@.len(),
            bytes@.len() >= old(bytes)@.len(),
            bytes@.subrange(0, old(bytes)@.len() as int) =~= old(bytes)@,
            2 * needed + 10 + BASE_CAPACITY <= usize::MAX,
        decreases 2 * needed + 10 + BASE_CAPACITY - bytes@.len(),
    {
        proof {
            vstd::arithmetic::div_mod::lemma_fundamental_div_mod(bytes@.len() as int, 5);
            assert(bytes@.len() <= 2 * needed + 4);
        }
        grow_zeros(bytes, BASE_CAPACITY);
        proof {
            assert(bytes@.subrange(0, old(bytes)@.len() as int) =~= old(bytes)@);
        }
    }
    proof {
        assert(bytes@.len() / 5 * 4 > needed);
        vstd::arithmetic::div_mod::lemma_fundamental_div_mod(bytes@.len() as int, 5);
    }
    write_bytes(bytes, index, vec)
}

/// Reads a u32-length-prefixed byte string from the front of `bytes`;
/// returns how many bytes were consumed and the string.
pub fn read_vec(bytes: &[u8]) -> (r: (usize, Vec<u8>))
    requires
        bytes@.len() >= 4,
        4 + bytes_le::from_le(bytes@.subrange(0, 4)) <= bytes@.len(),
    ensures
        r.0 == 4 + bytes_le::from_le(bytes@.subrange(0, 4)),
        r.1@ =~= bytes@.subrange(4, r.0 as int),
{
    let blen = bytes.len();
    proof {
        bytes_le::lemma_from_le_bound(bytes@.subrange(0, 4));
        bytes_le::lemma_pow256_values();
    }
    let n = bytes_le::le_read(bytes, 0, 4) as usize;
    let data = vstd::slice::slice_subrange(bytes, 4, 4 + n);
    (4 + n, vstd::slice::slice_to_vec(data))
}

/// Reads a u32-length-prefixed array of little-endian u16 values from
/// the front of `bytes`; returns how many bytes were consumed and the values.
pub fn read_vec_u16(bytes: &[u8]) -> (r: (usize, Vec<u16>))
    requires
        bytes@.len() >= 4,
        4 + 2 * bytes_le::from_le(bytes@.subrange(0, 4)) <= bytes@.len(),
    ensures
        r.0 == 4 + 2 * bytes_le::from_le(bytes@.subrange(0, 4)),
        r.1@.len() == bytes_le::from_le(bytes@.subrange(0, 4)),
        forall|i: int|
            0 <= i < r.1@.len() ==> r.1@[i] == bytes_le::from_le(
                bytes@.subrange(4 + 2 * i, 4 + 2 * i + 2),
            ),
{
    let blen = bytes.len();
    proof {
        bytes_le::lemma_from_le_bound(bytes@.subrange(0, 4));
        bytes_le::lemma_pow256_values();
    }
    let n = bytes_le::le_read(bytes, 0, 4) as usize;
    let mut res: Vec<u16> = Vec::new();
    let mut i: usize = 0;
    while i < n
        invariant
            i <= n,
            4 + 2 * n <= blen,
            blen == bytes@.len(),
            n == bytes_le::from_le(bytes@.subrange(0, 4)),
            res@.len() == i,
            forall|j: int|
                0 <= j < i ==> res@[j] == bytes_le::from_le(
                    bytes@.subrange(4 + 2 * j, 4 + 2 * j + 2),
                ),
        decreases n - i,
    {
        let v = bytes_le::le_read(bytes, 4 + i * 2, 2);
        proof {
            bytes_le::lemma_from_le_bound(bytes@.subrange(4 + 2 * i, 4 + 2 * i + 2));
            bytes_le::lemma_pow256_values();
        }
        res.push(v as u16);
        i = i + 1;
    }
    (4 + n * 2, res)
}

/// The characters `String::from_utf8_lossy` decodes a byte string to.
/// A deterministic function of the bytes.
pub uninterp spec fn utf8_lossy_of(b: Seq<u8>) -> Seq<char>;

/// Relies on String::from_utf8_lossy: decodes bytes to text, and
/// plain ASCII bytes decode to themselves.
#[verifier::external_body]
fn utf8_lossy(b: &[u8]) -> (r: String)
    ensures
        r@ == utf8_lossy_of(b@),
        (forall|i: int| 0 <= i < b@.len() ==> b@[i] < 0x80) ==> r@ == b@.map_values(
            |x: u8| x as char,
        ),
{
    String::from_utf8_lossy(b).to_string()
}

/// What scanning `count` length-prefixed address entries at offset
/// `at` yields: the entries' text bytes and the end offset, or
/// nothing when the buffer ends short.
pub open spec fn ip_entries_scan(b: Seq<u8>, count: nat, at: int) -> Option<(Seq<Seq<u8>>, int)>
    decreases count,
{
    if count == 0 {
        Some((Seq::empty(), at))
    } else if 0 <= at < b.len() {
        let l = b[at] as int;
        if at + 1 + l <= b.len() {
            match ip_entries_scan(b, (count - 1) as nat, at + 1 + l) {
                Some(p) => Some((seq![b.subrange(at + 1, at + 1 + l)] + p.0, p.1)),
                None => None,
            }
        } else {
            None
        }
    } else {
        None
    }
}

/// Reads `count` length-prefixed address entries off `bytes` at
/// offset `at`, exactly as `ip_entries_scan` describes them, each
/// decoded as text.
fn read_ip_entries(bytes: &[u8], count: u16, at: usize) -> (r: Option<(Vec<String>, usize)>)
    requires
        at <= bytes@.len(),
    ensures
        r is Some <==> ip_entries_scan(bytes@, count as nat, at as int) is Some,
        r matches Some(p) ==> (ip_entries_scan(bytes@, count as nat, at as int) matches Some(e)
            && p.0@.len() == e.0.len() && p.1 == e.1 && p.1 <= bytes@.len() && (forall|k: int|
            0 <= k < e.0.len() ==> (#[trigger] p.0@[k])@ == utf8_lossy_of(e.0[k]))),
    decreases count,
{
    let blen = bytes.len();
    if count == 0 {
        return Some((Vec::new(), at));
    }
    if at >= blen {
        return None;
    }
    let l = bytes[at] as usize;
    if blen - at - 1 < l {
        return None;
    }
    let chunk = vstd::slice::slice_subrange(bytes, at + 1, at + 1 + l);
    let entry = utf8_lossy(chunk);
    let tail = match read_ip_entries(bytes, count - 1, at + 1 + l) {
        Some(p) => p,
        None => {
            return None;
        },
    };
    let mut out: Vec<String> = Vec::new();
    out.push(entry);
    let mut rest = tail.0;
    out.append(&mut rest);
    proof {
        let e = ip_entries_scan(bytes@, count as nat, at as int).unwrap();
        assert forall|k: int| 0 <= k < e.0.len() implies (#[trigger] out@[k])@ == utf8_lossy_of(
            e.0[k],
        ) by {
            if k > 0 {
                let prev = ip_entries_scan(
                    bytes@,
                    (count - 1) as nat,
                    at + 1 + l as int,
                ).unwrap();
                assert(e.0[k] == prev.0[k - 1]);
            }
        }
    }
    Some((out, tail.1))
}

/// Reads a u16-counted list of length-prefixed address strings from
/// the front of `bytes`: the count, then one `u8` length and that many
/// text bytes per address. Returns the addresses and how many bytes
/// were consumed, exactly as the scan describes them, or nothing when
/// the buffer ends short.
pub fn read_ip_vec(bytes: &[u8]) -> (r: Option<(Vec<String>, usize)>)
    ensures
        r is Some <==> (bytes@.len() >= 2 && ip_entries_scan(
            bytes@,
            bytes_le::from_le(bytes@.subrange(0, 2)),
            2,
        ) is Some),
        r matches Some(p) ==> (ip_entries_scan(
            bytes@,
            bytes_le::from_le(bytes@.subrange(0, 2)),
            2,
        ) matches Some(e) && p.0@.len() == e.0.len() && p.1 == e.1 && (forall|k: int|
            0 <= k < e.0.len() ==> (#[trigger] p.0@[k])@ == utf8_lossy_of(e.0[k]))),
{
    let blen = bytes.len();
    if blen < 2 {
        return None;
    }
    proof {
        bytes_le::lemma_from_le_bound(bytes@.subrange(0, 2));
        bytes_le::lemma_pow256_values();
    }
    let n = bytes_le::le_read(bytes, 0, 2) as u16;
    read_ip_entries(bytes, n, 2)
}

/// A byte-for-byte copy of a buffer.
pub fn copy_bytes(v: &Vec<u8>) -> (r: Vec<u8>)
    ensures
        r@ =~= v@,
{
    let mut r: Vec<u8> = Vec::new();
    let len = v.len();
    let mut i: usize = 0;
    while i < len
        invariant
            i <= len,
            r@ =~= v@.subrange(0, i as int),
        decreases len - i,
    {
        r.push(v[i]);
        proof {
            assert(v@.subrange(0, i as int).push(v@[i as int]) =~= v@.subrange(0, i + 1));
        }
        i = i + 1;
    }
    proof {
        assert(v@.subrange(0, len as int) =~= v@);
    }
    r
}

/// Appends `n` zero bytes to a buffer.
pub fn grow_zeros(bytes: &mut Vec<u8>, n: usize)
    requires
        old(bytes)@.len() + n <= usize::MAX,
    ensures
        final(bytes)@.len() == old(bytes)@.len() + n,
        final(bytes)@.subrange(0, old(bytes)@.len() as int) =~= old(bytes)@,
        forall|j: int|
            old(bytes)@.len() <= j < final(bytes)@.len() ==> final(bytes)@[j] == 0,
{
    let mut i: usize = 0;
    while i < n
        invariant
            i <= n,
            old(bytes)@.len() + n <= usize::MAX,
            bytes@.len() == old(bytes)@.len() + i,
            bytes@.subrange(0, old(bytes)@.len() as int) =~= old(bytes)@,
            forall|j: int| old(bytes)@.len() <= j < bytes@.len() ==> bytes@[j] == 0,
        decreases n - i,
    {
        bytes.push(0);
        proof {
            assert(bytes@.subrange(0, old(bytes)@.len() as int) =~= bytes@.drop_last().subrange(
                0,
                old(bytes)@.len() as int,
            ));
        }
        i = i + 1;
    }
}

} // verus!
