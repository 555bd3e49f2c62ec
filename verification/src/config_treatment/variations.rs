//! A variation: the ordered list of values one parameter sweeps
//! through, and the cursor that walks it while accumulating results.
//!
//! In configurations the list may abbreviate runs with a `".."` token:
//! `[a, "..", b]` stands for a, a+1, ..., b-1, b.
use vstd::prelude::*;
use crate::str_eq;
use super::fields::{Fields, TypeField};
use super::result_fields::ResultFields;
use super::value::ConfigValue;

verus! {

/// The u16 a numeric token stands for (numbers are truncated).
pub open spec fn tok_u16(v: ConfigValue) -> u16 {
    match v {
        ConfigValue::Num(n) => n as u16,
        _ => 0,
    }
}

/// True on the `".."` run token.
pub open spec fn is_dots(v: ConfigValue) -> bool {
    match v {
        ConfigValue::Str(s) => s@ == ".."@,
        _ => false,
    }
}

/// True when a token list is a well-formed variation: numbers, and
/// `".."` tokens that stand strictly between two numbers.
pub open spec fn expand_ok(s: Seq<ConfigValue>) -> bool {
    forall|i: int|
        0 <= i < s.len() ==> ((#[trigger] s[i]) is Num || (is_dots(s[i]) && 0 < i && i + 1
            < s.len() && s[i - 1] is Num && s[i + 1] is Num))
}

/// The integers a, a+1, ..., b-1, as u16 values; empty when b <= a.
pub open spec fn range_seq(a: int, b: int) -> Seq<u16> {
    Seq::new(if b - a > 0 { (b - a) as nat } else { 0 }, |k: int| (a + k) as u16)
}

/// What token `i` contributes to the expansion: itself for a number,
/// the run between its two neighbours for a `".."`.
pub open spec fn token_run(s: Seq<ConfigValue>, i: int) -> Seq<u16> {
    if s[i] is Num {
        seq![tok_u16(s[i])]
    } else {
        range_seq(tok_u16(s[i - 1]) + 1, tok_u16(s[i + 1]) as int)
    }
}

/// The expansion of the first `n` tokens.
pub open spec fn expanded_prefix(s: Seq<ConfigValue>, n: int) -> Seq<u16>
    decreases n,
{
    if n <= 0 {
        Seq::empty()
    } else {
        expanded_prefix(s, n - 1) + token_run(s, n - 1)
    }
}

/// The full expansion of a token list.
pub open spec fn expanded(s: Seq<ConfigValue>) -> Seq<u16> {
    expanded_prefix(s, s.len() as int)
}

/// The parameter a plan sweeps and the values it takes, in order.
pub struct VariationData {
    field: TypeField,
    variation: Vec<u16>,
}

impl VariationData {
    /// The swept parameter.
    pub closed spec fn field_spec(self) -> TypeField {
        self.field
    }

    /// The values the parameter takes.
    pub closed spec fn variation_spec(self) -> Seq<u16> {
        self.variation@
    }

    /// The swept parameter is always one of the four named ones.
    pub open spec fn wf(self) -> bool {
        self.field_spec() != TypeField::T
    }

    /// A well-formed variation never sweeps the derived threshold.
    pub proof fn lemma_wf(self)
        requires
            self.wf(),
        ensures
            self.field_spec() != TypeField::T,
    {
    }

    /// A variation of nothing: parameter n, no values.
    pub fn empty() -> (r: VariationData)
        ensures
            r.wf(),
            r.field_spec() == TypeField::N,
            r.variation_spec() =~= Seq::<u16>::empty(),
    {
        VariationData { field: TypeField::N, variation: Vec::new() }
    }

    /// The swept parameter.
    pub fn field(&self) -> (r: TypeField)
        ensures
            r == self.field_spec(),
    {
        self.field
    }

    /// How many values the sweep holds.
    pub fn count(&self) -> (r: usize)
        ensures
            r == self.variation_spec().len(),
    {
        self.variation.len()
    }

    /// The first value of the sweep.
    pub fn first(&self) -> (r: u16)
        requires
            self.variation_spec().len() >= 1,
        ensures
            r == self.variation_spec()[0],
    {
        self.variation[0]
    }

    /// Builds a variation from a configuration entry: `key` names the
    /// swept parameter and `vec` lists its values, `".."` runs included.
    /// A list whose `".."` stands first, last, or not between two
    /// numbers, or that holds anything but numbers and `".."`, is refused.
    pub fn from_serde_str(key: &str, vec: &Vec<ConfigValue>) -> (r: Result<
        VariationData,
        &'static str,
    >)
        requires
            exists|f: TypeField| f != TypeField::T && #[trigger] f.name_spec() == key@,
        ensures
            match r {
                Ok(vd) => {
                    &&& expand_ok(vec@)
                    &&& vd.wf()
                    &&& vd.field_spec().name_spec() == key@
                    &&& vd.variation_spec() =~= expanded(vec@)
                },
                Err(_) => !expand_ok(vec@),
            },
    {
        let mut variation: Vec<u16> = Vec::new();
        let len = vec.len();
        let mut i: usize = 0;
        while i < len
            invariant
                i <= len,
                len == vec@.len(),
                variation@ =~= expanded_prefix(vec@, i as int),
                forall|j: int|
                    0 <= j < i ==> ((#[trigger] vec@[j]) is Num || (is_dots(vec@[j]) && 0 < j && j
                        + 1 < vec@.len() && vec@[j - 1] is Num && vec@[j + 1] is Num)),
            decreases len - i,
        {
            match &vec[i] {
                ConfigValue::Num(_) => {
                    variation.push(vec[i].as_u16());
                },
                ConfigValue::Str(s) => {
                    if !str_eq(s.as_str(), "..") {
                        proof {
                            assert(!(vec@[i as int] is Num) && !is_dots(vec@[i as int]));
                        }
                        return Err("Invalid variation");
                    }
                    if i == 0 {
                        proof {
                            assert(!(vec@[0] is Num));
                        }
                        return Err("Don't put the '..' at the beggining");
                    }
                    if i + 1 >= len {
                        proof {
                            assert(!(vec@[i as int] is Num));
                        }
                        return Err("Don't put the '..' at the end");
                    }
                    let prev_ok = matches!(&vec[i - 1], ConfigValue::Num(_));
                    let next_ok = matches!(&vec[i + 1], ConfigValue::Num(_));
                    if !prev_ok || !next_ok {
                        proof {
                            assert(!(vec@[i as int] is Num));
                        }
                        return Err("Invalid variation");
                    }
                    let previous = vec[i - 1].as_u16();
                    let next = vec[i + 1].as_u16();
                    let mut v: u32 = previous as u32 + 1;
                    let ghost base = variation@;
                    while v < next as u32
                        invariant
                            previous as u32 + 1 <= v <= 0x10000,
                            v <= next as u32 || v == previous as u32 + 1,
                            variation@ =~= base + range_seq(previous as int + 1, v as int),
                        decreases next as int - v,
                    {
                        variation.push(v as u16);
                        proof {
                            assert(base + range_seq(previous as int + 1, v as int) + seq![
                                v as u16,
                            ] =~= base + range_seq(previous as int + 1, v as int + 1));
                        }
                        v = v + 1;
                    }
                    proof {
                        if (previous as u32 + 1) >= next as u32 {
                            assert(range_seq(previous as int + 1, next as int)
                                =~= Seq::<u16>::empty());
                        }
                        assert(variation@ =~= base + range_seq(previous as int + 1, next as int));
                        assert(token_run(vec@, i as int) =~= range_seq(
                            previous as int + 1,
                            next as int,
                        ));
                    }
                },
                _ => {
                    proof {
                        assert(!(vec@[i as int] is Num) && !is_dots(vec@[i as int]));
                    }
                    return Err("Invalid variation");
                },
            }
            i = i + 1;
        }
        let field = match TypeField::from_name(key) {
            Some(f) => f,
            None => TypeField::N,
        };
        proof {
            let f0 = choose|f: TypeField| f != TypeField::T && #[trigger] f.name_spec() == key@;
            assert(field.name_spec() == key@);
        }
        Ok(VariationData { field, variation })
    }
}

/// The cursor that drives a variation: which position is active, how
/// many rounds the position has seen, and the running accumulation.
pub struct Variation {
    data: VariationData,
    variation_index: usize,
    end: usize,
    variation_count: usize,
    conclusion: ResultFields,
}

impl Variation {
    /// The variation being walked.
    pub closed spec fn data_spec(self) -> VariationData {
        self.data
    }

    /// The active position.
    pub closed spec fn index_spec(self) -> usize {
        self.variation_index
    }

    /// How many positions there are.
    pub closed spec fn end_spec(self) -> usize {
        self.end
    }

    /// Rounds seen at the active position.
    pub closed spec fn count_spec(self) -> usize {
        self.variation_count
    }

    /// The running accumulation of round results.
    pub closed spec fn conclusion_spec(self) -> ResultFields {
        self.conclusion
    }

    /// The cursor's bookkeeping matches its variation.
    pub open spec fn wf(self) -> bool {
        &&& self.data_spec().wf()
        &&& self.conclusion_spec().wf()
        &&& self.end_spec() == self.data_spec().variation_spec().len()
    }

    /// What well-formedness of the cursor gives its users.
    pub proof fn lemma_wf(self)
        requires
            self.wf(),
        ensures
            self.data_spec().wf(),
            self.conclusion_spec().wf(),
            self.end_spec() == self.data_spec().variation_spec().len(),
            self.data_spec().field_spec() != TypeField::T,
    {
    }

    /// A cursor over the empty variation.
    pub fn new() -> (r: Variation)
        ensures
            r.wf(),
            r.index_spec() == 0,
            r.end_spec() == 0,
            r.count_spec() == 0,
            r.data_spec().variation_spec().len() == 0,
            r.conclusion_spec().code_spec() == crate::ErrorCode::OK,
            forall|i: int| 0 <= i < 9 ==> r.conclusion_spec().results_spec()[i] == 0,
    {
        Variation {
            data: VariationData::empty(),
            end: 0,
            variation_index: 0,
            variation_count: 0,
            conclusion: ResultFields::new(),
        }
    }

    /// Overwrites the round count of the active position.
    pub fn set_count(&mut self, n: usize)
        ensures
            final(self).count_spec() == n,
            final(self).data_spec() == old(self).data_spec(),
            final(self).index_spec() == old(self).index_spec(),
            final(self).end_spec() == old(self).end_spec(),
            final(self).conclusion_spec() == old(self).conclusion_spec(),
            final(self).wf() == old(self).wf(),
    {
        self.variation_count = n
    }

    /// Installs a variation; the cursor position is kept.
    pub fn set_data(&mut self, data: VariationData)
        requires
            old(self).wf(),
            data.wf(),
        ensures
            final(self).wf(),
            final(self).data_spec() == data,
            final(self).index_spec() == old(self).index_spec(),
            final(self).end_spec() == data.variation_spec().len(),
            final(self).count_spec() == old(self).count_spec(),
            final(self).conclusion_spec() == old(self).conclusion_spec(),
    {
        self.end = data.variation.len();
        self.data = data;
    }

    /// Forgets the rounds seen at the active position.
    pub fn reset(&mut self)
        ensures
            final(self).count_spec() == 0,
            final(self).data_spec() == old(self).data_spec(),
            final(self).index_spec() == old(self).index_spec(),
            final(self).end_spec() == old(self).end_spec(),
            final(self).conclusion_spec() == old(self).conclusion_spec(),
            final(self).wf() == old(self).wf(),
    {
        self.variation_count = 0;
    }

    /// Rewinds the cursor to the first position and points the
    /// parameter fields at its value.
    pub fn reset_full(&mut self, fields: &mut Fields)
        requires
            old(self).wf(),
            old(fields).wf(),
        ensures
            final(self).wf(),
            final(self).index_spec() == 0,
            final(self).count_spec() == 0,
            final(self).data_spec() == old(self).data_spec(),
            final(self).conclusion_spec() == old(self).conclusion_spec(),
            final(fields).wf(),
            old(self).end_spec() > 0 ==> final(fields).view_spec() == old(
                fields,
            ).view_spec().update(
                old(self).data_spec().field_spec().index_spec(),
                old(self).data_spec().variation_spec()[0],
            ),
            old(self).end_spec() == 0 ==> final(fields).view_spec() == old(fields).view_spec(),
    {
        self.reset();
        self.variation_index = 0;
        self.actualise_data(fields);
    }

    /// Points the parameter fields at the active position's value,
    /// when the cursor still stands inside the variation.
    fn actualise_data(&self, args: &mut Fields)
        requires
            self.wf(),
            old(args).wf(),
        ensures
            final(args).wf(),
            self.index_spec() < self.end_spec() ==> final(args).view_spec() == old(
                args,
            ).view_spec().update(
                self.data_spec().field_spec().index_spec(),
                self.data_spec().variation_spec()[self.index_spec() as int],
            ),
            self.index_spec() >= self.end_spec() ==> final(args).view_spec() == old(
                args,
            ).view_spec(),
    {
        if self.variation_index < self.end {
            args.set(self.data.field, self.data.variation[self.variation_index]);
        }
    }

    /// Feeds one round's result into the cursor. After `hmt` rounds
    /// the position is done: the accumulation is handed out, the
    /// cursor advances, and the parameter fields follow; the first
    /// component then tells whether the whole variation is finished.
    pub fn evolve(&mut self, hmt: usize, args: &mut Fields, result: ResultFields) -> (r: (
        bool,
        Option<ResultFields>,
    ))
        requires
            old(self).wf(),
            old(args).wf(),
            result.wf(),
            old(self).count_spec() < usize::MAX,
            old(self).index_spec() < usize::MAX,
            forall|i: int|
                0 <= i < 9 ==> old(self).conclusion_spec().results_spec()[i]
                    + result.results_spec()[i] <= u128::MAX,
        ensures
            final(self).wf(),
            final(args).wf(),
            final(self).data_spec() == old(self).data_spec(),
            forall|i: int|
                0 <= i < 9 ==> #[trigger] final(self).conclusion_spec().results_spec()[i] == (
                if old(self).count_spec() + 1 == hmt {
                    0
                } else {
                    old(self).conclusion_spec().results_spec()[i] + result.results_spec()[i]
                }),
            if old(self).count_spec() + 1 == hmt {
                &&& final(self).count_spec() == 0
                &&& final(self).index_spec() == old(self).index_spec() + 1
                &&& r.0 == (old(self).index_spec() + 1 == old(self).end_spec())
                &&& r.1 matches Some(c) && c.wf() && (forall|i: int|
                    0 <= i < 9 ==> #[trigger] c.results_spec()[i]
                        == old(self).conclusion_spec().results_spec()[i]
                        + result.results_spec()[i])
                &&& (final(self).index_spec() < final(self).end_spec()
                    ==> final(args).view_spec() == old(args).view_spec().update(
                        old(self).data_spec().field_spec().index_spec(),
                        old(self).data_spec().variation_spec()[final(self).index_spec() as int],
                    ))
                &&& (final(self).index_spec() >= final(self).end_spec()
                    ==> final(args).view_spec() == old(args).view_spec())
            } else {
                &&& final(self).count_spec() == old(self).count_spec() + 1
                &&& final(self).index_spec() == old(self).index_spec()
                &&& r == (false, None::<ResultFields>)
                &&& final(args).view_spec() == old(args).view_spec()
            },
    {
        self.variation_count = self.variation_count + 1;
        self.conclusion.accumulate(&result);
        if self.variation_count == hmt {
            self.variation_count = 0;
            self.variation_index = self.variation_index + 1;
            let conclusion = self.conclusion.extract();
            self.actualise_data(args);
            return (self.variation_index == self.end, Some(conclusion));
        }
        (false, None)
    }

    /// The sweep's displayed values and the swept parameter's name.
    /// A threshold-denominator sweep displays (n - 1) / t_denom.
    pub fn get_field_and_var(&self, n: u16) -> (r: (Vec<u32>, String))
        requires
            self.wf(),
            self.data_spec().field_spec() == TypeField::TDenom ==> n >= 1 && forall|i: int|
                0 <= i < self.data_spec().variation_spec().len()
                    ==> #[trigger] self.data_spec().variation_spec()[i] != 0,
        ensures
            r.1@ == self.data_spec().field_spec().name_spec(),
            r.0@.len() == self.data_spec().variation_spec().len(),
            forall|i: int|
                0 <= i < r.0@.len() ==> #[trigger] r.0@[i] == (
                if self.data_spec().field_spec() == TypeField::TDenom {
                    (n - 1) as u32 / self.data_spec().variation_spec()[i] as u32
                } else {
                    self.data_spec().variation_spec()[i] as u32
                }),
    {
        let is_tdenom = self.data.field == TypeField::TDenom;
        let mut out: Vec<u32> = Vec::new();
        let len = self.data.variation.len();
        let mut i: usize = 0;
        while i < len
            invariant
                i <= len,
                len == self.data.variation_spec().len(),
                self.wf(),
                is_tdenom == (self.data_spec().field_spec() == TypeField::TDenom),
                is_tdenom ==> n >= 1 && forall|j: int|
                    0 <= j < len ==> #[trigger] self.data_spec().variation_spec()[j] != 0,
                out@.len() == i,
                forall|j: int|
                    0 <= j < i ==> #[trigger] out@[j] == (
                    if self.data_spec().field_spec() == TypeField::TDenom {
                        (n - 1) as u32 / self.data_spec().variation_spec()[j] as u32
                    } else {
                        self.data_spec().variation_spec()[j] as u32
                    }),
            decreases len - i,
        {
            let t = self.data.variation[i];
            if is_tdenom {
                out.push((n as u32 - 1) / t as u32);
            } else {
                out.push(t as u32);
            }
            i = i + 1;
        }
        (out, self.data.field.name().to_owned())
    }
}

/// The run abbreviation expands inclusively: `[a, "..", b]` stands
/// for every integer from a to b.
pub proof fn lemma_range_expansion(a: u16, b: u16, s: Seq<ConfigValue>)
    requires
        s.len() == 3,
        s[0] == ConfigValue::Num(a as u64),
        is_dots(s[1]),
        s[2] == ConfigValue::Num(b as u64),
        a < b,
    ensures
        expand_ok(s),
        expanded(s).len() == b - a + 1,
        forall|k: int| 0 <= k <= b - a ==> #[trigger] expanded(s)[k] == a + k,
{
    assert(expanded_prefix(s, 0) =~= Seq::<u16>::empty());
    assert(token_run(s, 0) =~= seq![a]);
    assert(expanded_prefix(s, 1) =~= seq![a]);
    assert(tok_u16(s[0]) == a && tok_u16(s[2]) == b);
    assert(token_run(s, 1) =~= range_seq(a + 1, b as int));
    assert(token_run(s, 2) =~= seq![b]);
    assert(expanded_prefix(s, 2) =~= seq![a] + range_seq(a + 1, b as int));
    assert(expanded_prefix(s, 3) =~= seq![a] + range_seq(a + 1, b as int) + seq![b]);
    assert(expanded(s) == expanded_prefix(s, 3));
}

} // verus!
