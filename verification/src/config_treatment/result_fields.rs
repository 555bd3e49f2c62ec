//! The per-round result vector: nine millisecond durations tagged
//! with an error code, together with the metric-name directory.
use vstd::prelude::*;
use crate::ErrorCode;
use crate::bytes_le;
use crate::str_eq;

verus! {

/// Milliseconds.
pub type Duration = u128;

/// Number of duration slots in a result vector.
pub const NB_FIELD: usize = 9;

/// Wire size of a result vector: nine u128 fields after a code byte.
pub const RESULT_FIELDS_SIZE: usize = 145;

/// The slots of a result vector, in wire order.
#[derive(Debug, Clone, Copy, PartialEq, Eq, Structural)]
pub enum TypeResultField {
    Verify,
    Dealing,
    FirstReceiv,
    BroadCasting,
    MessagesComputing,
    Total,
    Reconstruction,
    DebitSharing,
    DebitReconstruct,
}

impl TypeResultField {
    /// The slot's position in the result vector.
    pub open spec fn index_spec(self) -> int {
        match self {
            TypeResultField::Verify => 0,
            TypeResultField::Dealing => 1,
            TypeResultField::FirstReceiv => 2,
            TypeResultField::BroadCasting => 3,
            TypeResultField::MessagesComputing => 4,
            TypeResultField::Total => 5,
            TypeResultField::Reconstruction => 6,
            TypeResultField::DebitSharing => 7,
            TypeResultField::DebitReconstruct => 8,
        }
    }

    /// The slot's position in the result vector.
    pub fn index(self) -> (r: usize)
        ensures
            r == self.index_spec(),
            r < 9,
    {
        match self {
            TypeResultField::Verify => 0,
            TypeResultField::Dealing => 1,
            TypeResultField::FirstReceiv => 2,
            TypeResultField::BroadCasting => 3,
            TypeResultField::MessagesComputing => 4,
            TypeResultField::Total => 5,
            TypeResultField::Reconstruction => 6,
            TypeResultField::DebitSharing => 7,
            TypeResultField::DebitReconstruct => 8,
        }
    }
}

/// The name under which slot `i` appears in configurations and
/// conclusions: the seven latency metrics, then the two throughput ones.
pub open spec fn metric_name_spec(i: int) -> Seq<char> {
    if i == 0 {
        "verify"@
    } else if i == 1 {
        "dealing"@
    } else if i == 2 {
        "first_receiv"@
    } else if i == 3 {
        "broadcasting"@
    } else if i == 4 {
        "messages_computing"@
    } else if i == 5 {
        "total_sharing"@
    } else if i == 6 {
        "total_reconstruct"@
    } else if i == 7 {
        "sharing"@
    } else {
        "reconstruct"@
    }
}

/// The name of slot `i`.
pub fn metric_name(i: usize) -> (r: &'static str)
    requires
        i < 9,
    ensures
        r@ == metric_name_spec(i as int),
{
    match i {
        0 => "verify",
        1 => "dealing",
        2 => "first_receiv",
        3 => "broadcasting",
        4 => "messages_computing",
        5 => "total_sharing",
        6 => "total_reconstruct",
        7 => "sharing",
        _ => "reconstruct",
    }
}

/// The slot a name stands for, when it is a metric name at all.
pub open spec fn metric_index_spec(s: Seq<char>) -> Option<int> {
    if exists|i: int| 0 <= i < 9 && metric_name_spec(i) == s {
        Some(choose|i: int| 0 <= i < 9 && metric_name_spec(i) == s)
    } else {
        None
    }
}

/// Looks a metric name up; the first nine slots are searched in order.
pub fn metric_index(s: &str) -> (r: Option<usize>)
    ensures
        match r {
            Some(i) => i < 9 && metric_name_spec(i as int) == s@,
            None => forall|i: int| 0 <= i < 9 ==> metric_name_spec(i) != s@,
        },
{
    let mut i: usize = 0;
    while i < 9
        invariant
            i <= 9,
            forall|j: int| 0 <= j < i ==> metric_name_spec(j) != s@,
        decreases 9 - i,
    {
        if str_eq(metric_name(i), s) {
            return Some(i);
        }
        i = i + 1;
    }
    None
}

/// True when `res` names one of the nine metrics, latency or throughput.
pub fn result_exists(res: &str) -> (r: bool)
    ensures
        r == exists|i: int| 0 <= i < 9 && metric_name_spec(i) == res@,
{
    match metric_index(res) {
        Some(i) => {
            proof {
                assert(0 <= i < 9 && metric_name_spec(i as int) == res@);
            }
            true
        },
        None => false,
    }
}

/// True when slot `i` is one of the two throughput metrics.
pub open spec fn is_debit_metric(i: int) -> bool {
    i == 7 || i == 8
}

/// Byte encoding of a sequence of u128 slots, each little-endian.
pub open spec fn fields_bytes(s: Seq<u128>) -> Seq<u8>
    decreases s.len(),
{
    if s.len() == 0 {
        Seq::empty()
    } else {
        fields_bytes(s.drop_last()) + bytes_le::le_bytes(s.last() as nat, 16)
    }
}

/// Appending a slot appends its sixteen bytes.
pub proof fn lemma_fields_bytes_take(s: Seq<u128>, i: int)
    requires
        0 <= i < s.len(),
    ensures
        fields_bytes(s.take(i + 1)) == fields_bytes(s.take(i)) + bytes_le::le_bytes(
            s[i] as nat,
            16,
        ),
{
    assert(s.take(i + 1).drop_last() =~= s.take(i));
    assert(s.take(i + 1).last() == s[i]);
}

/// A round's nine measured durations and its outcome code.
#[derive(Debug, Clone)]
pub struct ResultFields {
    results: Vec<Duration>,
    code: ErrorCode,
}

impl ResultFields {
    /// The durations, as a sequence of nine values.
    pub closed spec fn results_spec(self) -> Seq<u128> {
        self.results@
    }

    /// The outcome code.
    pub closed spec fn code_spec(self) -> ErrorCode {
        self.code
    }

    /// A result vector always holds exactly nine slots.
    pub open spec fn wf(self) -> bool {
        self.results_spec().len() == 9
    }

    /// Nine zeroed slots under an OK code.
    pub fn new() -> (r: ResultFields)
        ensures
            r.wf(),
            r.code_spec() == ErrorCode::OK,
            forall|i: int| 0 <= i < 9 ==> r.results_spec()[i] == 0,
    {
        let mut results: Vec<Duration> = Vec::new();
        let mut i: usize = 0;
        while i < 9
            invariant
                i <= 9,
                results@.len() == i,
                forall|j: int| 0 <= j < i ==> results@[j] == 0,
            decreases 9 - i,
        {
            results.push(0);
            i = i + 1;
        }
        ResultFields { results, code: ErrorCode::OK }
    }

    /// True when the round failed.
    pub fn is_err(&self) -> (r: bool)
        ensures
            r == (self.code_spec() != ErrorCode::OK),
    {
        self.code != ErrorCode::OK
    }

    /// The duration in one slot.
    pub fn get(&self, i: TypeResultField) -> (r: Duration)
        requires
            self.wf(),
        ensures
            r == self.results_spec()[i.index_spec()],
    {
        self.results[i.index()]
    }

    /// Overwrites one slot.
    pub fn set(&mut self, i: TypeResultField, v: Duration)
        requires
            old(self).wf(),
        ensures
            final(self).wf(),
            final(self).results_spec() == old(self).results_spec().update(i.index_spec(), v),
            final(self).code_spec() == old(self).code_spec(),
    {
        let idx = i.index();
        self.results.set(idx, v);
    }

    /// Replaces the code, keeping the durations.
    pub fn set_code(&mut self, code: ErrorCode)
        ensures
            final(self).results_spec() == old(self).results_spec(),
            final(self).code_spec() == code,
            final(self).wf() == old(self).wf(),
    {
        self.code = code;
    }

    /// Takes the accumulated vector out, leaving a fresh one.
    pub fn extract(&mut self) -> (r: ResultFields)
        requires
            old(self).wf(),
        ensures
            r == *old(self),
            final(self).wf(),
            final(self).code_spec() == ErrorCode::OK,
            forall|i: int| 0 <= i < 9 ==> final(self).results_spec()[i] == 0,
    {
        let mut fresh = ResultFields::new();
        core::mem::swap(self, &mut fresh);
        fresh
    }

    /// Adds another round's durations slot by slot, keeping this code.
    pub fn accumulate(&mut self, other: &ResultFields)
        requires
            old(self).wf(),
            other.wf(),
            forall|i: int|
                0 <= i < 9 ==> old(self).results_spec()[i] + other.results_spec()[i] <= u128::MAX,
        ensures
            final(self).wf(),
            final(self).code_spec() == old(self).code_spec(),
            forall|i: int|
                0 <= i < 9 ==> final(self).results_spec()[i] == old(self).results_spec()[i]
                    + other.results_spec()[i],
    {
        let mut i: usize = 0;
        while i < 9
            invariant
                i <= 9,
                self.results@.len() == 9,
                other.wf(),
                self.code == old(self).code,
                forall|j: int|
                    0 <= j < 9 ==> old(self).results_spec()[j] + other.results_spec()[j]
                        <= u128::MAX,
                forall|j: int|
                    i <= j < 9 ==> self.results@[j] == old(self).results_spec()[j],
                forall|j: int|
                    0 <= j < i ==> self.results@[j] == old(self).results_spec()[j]
                        + other.results_spec()[j],
            decreases 9 - i,
    {
            proof {
                assert(self.results@[i as int] == old(self).results_spec()[i as int]);
                assert(old(self).results_spec()[i as int] + other.results_spec()[i as int]
                    <= u128::MAX);
            }
            let v = self.results[i] + other.results[i];
            self.results.set(i, v);
            i = i + 1;
        }
    }

    /// Serializes as one code byte followed by the nine slots.
    pub fn to_bytes(&self, code: ErrorCode) -> (r: Vec<u8>)
        requires
            self.wf(),
        ensures
            r@.len() == RESULT_FIELDS_SIZE,
            r@ =~= seq![code.as_byte()] + fields_bytes(self.results_spec()),
    {
        let mut r: Vec<u8> = Vec::new();
        r.push(code.to_u8());
        let mut i: usize = 0;
        proof {
            assert(self.results_spec().take(0) =~= Seq::<u128>::empty());
        }
        while i < 9
            invariant
                i <= 9,
                self.wf(),
                r@ =~= seq![code.as_byte()] + fields_bytes(self.results_spec().take(i as int)),
                r@.len() == 1 + 16 * i,
            decreases 9 - i,
        {
            let mut piece = bytes_le::le_write(self.results[i], 16);
            r.append(&mut piece);
            proof {
                lemma_fields_bytes_take(self.results_spec(), i as int);
            }
            i = i + 1;
        }
        proof {
            assert(self.results_spec().take(9) =~= self.results_spec());
        }
        r
    }

    /// Reads a vector back from its wire form; the leading byte must
    /// be a known error code.
    pub fn from_bytes(bytes: &[u8]) -> (r: ResultFields)
        requires
            bytes@.len() >= RESULT_FIELDS_SIZE,
            bytes@[0] <= 4,
        ensures
            r.wf(),
            r.code_spec().as_byte() == bytes@[0],
            forall|i: int|
                0 <= i < 9 ==> r.results_spec()[i] == bytes_le::from_le(
                    #[trigger] bytes@.subrange(1 + 16 * i, 1 + 16 * i + 16),
                ),
    {
        let code = match ErrorCode::from_u8(bytes[0]) {
            Some(c) => c,
            None => ErrorCode::OK,
        };
        let mut results: Vec<Duration> = Vec::new();
        let mut i: usize = 0;
        while i < 9
            invariant
                i <= 9,
                bytes@.len() >= RESULT_FIELDS_SIZE,
                results@.len() == i,
                forall|j: int|
                    0 <= j < i ==> results@[j] == bytes_le::from_le(
                        #[trigger] bytes@.subrange(1 + 16 * j, 1 + 16 * j + 16),
                    ),
            decreases 9 - i,
        {
            let v = bytes_le::le_read(bytes, 1 + 16 * i, 16);
            results.push(v);
            i = i + 1;
        }
        ResultFields { results, code }
    }

    /// The duration under a metric name, looked up across the
    /// latency names then the throughput names.
    pub fn get_from_str(&self, field: &str) -> (r: Duration)
        requires
            self.wf(),
            metric_index_spec(field@) is Some,
        ensures
            r == self.results_spec()[metric_index_spec(field@).unwrap()],
    {
        let idx = match metric_index(field) {
            Some(i) => i,
            None => 0,
        };
        proof {
            let j = metric_index_spec(field@).unwrap();
            assert(metric_name_spec(j) == field@);
            assert forall|a: int, b: int|
                0 <= a < 9 && 0 <= b < 9 && a != b implies metric_name_spec(a)
                != metric_name_spec(b) by {
            lemma_metric_names_distinct();
            }
        }
        self.results[idx]
    }
}

/// The nine metric names differ pairwise.
pub proof fn lemma_metric_names_distinct()
    ensures
        forall|a: int, b: int|
            0 <= a < 9 && 0 <= b < 9 && a != b ==> metric_name_spec(a) != metric_name_spec(b),
{
    reveal_strlit("verify");
    reveal_strlit("dealing");
    reveal_strlit("first_receiv");
    reveal_strlit("broadcasting");
    reveal_strlit("messages_computing");
    reveal_strlit("total_sharing");
    reveal_strlit("total_reconstruct");
    reveal_strlit("sharing");
    reveal_strlit("reconstruct");
    assert("verify"@.len() == 6);
    assert("dealing"@.len() == 7);
    assert("first_receiv"@.len() == 12);
    assert("broadcasting"@.len() == 12);
    assert("messages_computing"@.len() == 18);
    assert("total_sharing"@.len() == 13);
    assert("total_reconstruct"@.len() == 17);
    assert("sharing"@.len() == 7);
    assert("reconstruct"@.len() == 11);
    assert("first_receiv"@[0] == 'f' && "broadcasting"@[0] == 'b');
    assert("dealing"@[0] == 'd' && "sharing"@[0] == 's');
}

/// Serializing then parsing a result vector hands the same slots and
/// code back.
pub proof fn lemma_result_round_trip(r: ResultFields, code: ErrorCode, bytes: Seq<u8>, back: ResultFields)
    requires
        r.wf(),
        bytes.len() == RESULT_FIELDS_SIZE,
        bytes =~= seq![code.as_byte()] + fields_bytes(r.results_spec()),
        back.wf(),
        back.code_spec().as_byte() == bytes[0],
        forall|i: int|
            0 <= i < 9 ==> back.results_spec()[i] == bytes_le::from_le(
                #[trigger] bytes.subrange(1 + 16 * i, 1 + 16 * i + 16),
            ),
    ensures
        back.code_spec() == code,
        back.results_spec() =~= r.results_spec(),
{
    assert forall|i: int| 0 <= i < 9 implies back.results_spec()[i] == r.results_spec()[i] by {
        lemma_fields_bytes_flat(r.results_spec(), i);
        bytes_le::lemma_from_le_bound(Seq::<u8>::empty());
        assert(bytes.subrange(1 + 16 * i, 1 + 16 * i + 16) =~= bytes_le::le_bytes(
            r.results_spec()[i] as nat,
            16,
        ));
        bytes_le::lemma_pow256_le16();
        bytes_le::lemma_le_round_trip(r.results_spec()[i] as nat, 16);
    }
    assert(back.code_spec().as_byte() == code.as_byte());
    assert(back.code_spec() == code) by {
        lemma_error_code_injective(back.code_spec(), code);
    }
}

/// Two error codes with one wire byte are the same code.
pub proof fn lemma_error_code_injective(a: ErrorCode, b: ErrorCode)
    requires
        a.as_byte() == b.as_byte(),
    ensures
        a == b,
{
}

/// Slot `i`'s sixteen bytes sit at offset 16*i of the serialized slots.
pub proof fn lemma_fields_bytes_flat(s: Seq<u128>, i: int)
    requires
        0 <= i < s.len(),
    ensures
        fields_bytes(s).len() == 16 * s.len(),
        fields_bytes(s).subrange(16 * i, 16 * i + 16) =~= bytes_le::le_bytes(s[i] as nat, 16),
    decreases s.len(),
{
    lemma_fields_bytes_len(s);
    if i == s.len() - 1 {
        lemma_fields_bytes_len(s.drop_last());
        assert(fields_bytes(s).subrange(16 * i, 16 * i + 16) =~= bytes_le::le_bytes(
            s.last() as nat,
            16,
        ));
    } else {
        lemma_fields_bytes_flat(s.drop_last(), i);
        lemma_fields_bytes_len(s.drop_last());
        assert(fields_bytes(s).subrange(16 * i, 16 * i + 16) =~= fields_bytes(
            s.drop_last(),
        ).subrange(16 * i, 16 * i + 16));
    }
}

/// Nine slots serialize to 16 bytes each.
pub proof fn lemma_fields_bytes_len(s: Seq<u128>)
    ensures
        fields_bytes(s).len() == 16 * s.len(),
    decreases s.len(),
{
    if s.len() > 0 {
        lemma_fields_bytes_len(s.drop_last());
    }
}

} // verus!
