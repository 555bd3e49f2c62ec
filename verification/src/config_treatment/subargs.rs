//! One step of a benchmark plan: a parameter point, the metrics it
//! collects, the variation it sweeps and the repetition counts for
//! latency and throughput measurements.
use vstd::prelude::*;
use crate::Evaluation;
use super::fields::{Fields, TypeField};
use super::result_fields::{metric_index, metric_name, metric_name_spec, ResultFields};
use super::value::ConfigValue;
use super::variations::{Variation, VariationData};

verus! {

/// The three parameters that stay fixed while `f` sweeps, in their
/// vector order.
pub open spec fn base_fields(f: TypeField) -> Seq<TypeField> {
    match f {
        TypeField::N => seq![TypeField::TDenom, TypeField::NbByz, TypeField::ByzComp],
        TypeField::TDenom => seq![TypeField::N, TypeField::NbByz, TypeField::ByzComp],
        TypeField::NbByz => seq![TypeField::N, TypeField::TDenom, TypeField::ByzComp],
        _ => seq![TypeField::N, TypeField::TDenom, TypeField::NbByz],
    }
}

/// The displayed sweep values of a step: a threshold-denominator
/// sweep displays (n - 1) / t_denom, any other its raw values.
pub open spec fn displayed_at(s: SubArgs, i: int) -> u32 {
    if s.variation_spec().data_spec().field_spec() == TypeField::TDenom {
        ((s.fields_spec().view_spec()[0] - 1) as u32
            / s.variation_spec().data_spec().variation_spec()[i] as u32)
    } else {
        s.variation_spec().data_spec().variation_spec()[i] as u32
    }
}

pub open spec fn displayed_values(s: SubArgs) -> Seq<u32> {
    Seq::new(
        s.variation_spec().data_spec().variation_spec().len(),
        |i: int| displayed_at(s, i),
    )
}

/// The collected metrics that belong to one side of the conclusion:
/// the throughput slots when `debit` is set, the latency slots
/// otherwise, in collection order.
pub open spec fn metrics_split(res: Seq<(usize, Seq<u128>)>, debit: bool) -> Seq<
    (usize, Seq<u128>),
>
    decreases res.len(),
{
    if res.len() == 0 {
        Seq::empty()
    } else {
        let rest = metrics_split(res.drop_first(), debit);
        if (res.first().0 == 7 || res.first().0 == 8) == debit {
            seq![res.first()] + rest
        } else {
            rest
        }
    }
}

/// One conclusion-map entry stands for one collected metric: its name
/// and its values, each truncated to u64.
pub open spec fn metric_entry_matches(e: (String, ConfigValue), m: (usize, Seq<u128>)) -> bool {
    e.0@ == super::result_fields::metric_name_spec(m.0 as int) && (match e.1 {
        ConfigValue::Arr(a) => a@.len() == m.1.len() && (forall|q: int|
            0 <= q < m.1.len() ==> a@[q] == ConfigValue::Num(m.1[q] as u64)),
        _ => false,
    })
}

/// A conclusion map carries exactly the given metrics, in order.
pub open spec fn metric_map_matches(
    entries: Seq<(String, ConfigValue)>,
    ms: Seq<(usize, Seq<u128>)>,
) -> bool {
    entries.len() == ms.len() && (forall|k: int|
        0 <= k < ms.len() ==> metric_entry_matches(#[trigger] entries[k], ms[k]))
}

/// Splitting one more collected metric appends it to its side.
pub proof fn lemma_metrics_split_take(res: Seq<(usize, Seq<u128>)>, debit: bool, i: int)
    requires
        0 <= i < res.len(),
    ensures
        metrics_split(res.take(i + 1), debit) == metrics_split(res.take(i), debit) + (
        if ((res[i].0 == 7 || res[i].0 == 8) == debit) {
            seq![res[i]]
        } else {
            Seq::empty()
        }),
    decreases i,
{
    if i == 0 {
        assert(res.take(1).drop_first() =~= res.take(0));
        assert(res.take(0) =~= Seq::<(usize, Seq<u128>)>::empty());
        assert(res.take(1).first() == res[0]);
        if (res[0].0 == 7 || res[0].0 == 8) == debit {
            assert(metrics_split(res.take(1), debit) =~= seq![res[0]]);
        } else {
            assert(metrics_split(res.take(1), debit) =~= Seq::<(usize, Seq<u128>)>::empty());
        }
    } else {
        lemma_metrics_split_take(res.drop_first(), debit, i - 1);
        assert(res.take(i + 1).drop_first() =~= res.drop_first().take(i));
        assert(res.take(i).drop_first() =~= res.drop_first().take(i - 1));
        assert(res.take(i + 1).first() == res[0]);
        assert(res.take(i).first() == res[0]);
        assert(res.drop_first()[i - 1] == res[i]);
    }
}

/// A step's conclusion object as the evaluation engine writes it:
/// an "args" object holding the swept parameter's name, its displayed
/// sweep values, and the three fixed parameters, followed by the
/// non-empty throughput and latency metric maps.
pub open spec fn subarg_conclusion_matches(v: ConfigValue, s: SubArgs) -> bool {
    match v {
        ConfigValue::Obj(obj) => {
            &&& obj@.len() == 1 + (if metrics_split(s.result_spec(), true).len() > 0 {
                1int
            } else {
                0int
            }) + (if metrics_split(s.result_spec(), false).len() > 0 {
                1int
            } else {
                0int
            })
            &&& (obj@[0]).0@ == "args"@
            &&& (match (obj@[0]).1 {
                ConfigValue::Obj(am) => {
                    &&& am@.len() == 5
                    &&& (am@[0]).0@ == "field"@
                    &&& (match (am@[0]).1 {
                        ConfigValue::Str(fs) => fs@ == s.variation_spec().data_spec().field_spec().name_spec(),
                        _ => false,
                    })
                    &&& (am@[1]).0@ == "variation"@
                    &&& (match (am@[1]).1 {
                        ConfigValue::Arr(va) => va@.len() == displayed_values(s).len() && (
                        forall|q: int|
                            0 <= q < va@.len() ==> va@[q] == ConfigValue::Num(
                                displayed_values(s)[q] as u64,
                            )),
                        _ => false,
                    })
                    &&& (forall|k: int|
                        0 <= k < 3 ==> (#[trigger] am@[2 + k]).0@ == base_fields(
                            s.variation_spec().data_spec().field_spec(),
                        )[k].name_spec() && (am@[2 + k]).1 == ConfigValue::Num(
                            s.fields_spec().view_spec()[base_fields(
                                s.variation_spec().data_spec().field_spec(),
                            )[k].index_spec()] as u64,
                        ))
                },
                _ => false,
            })
            &&& (metrics_split(s.result_spec(), true).len() > 0 ==> (obj@[1]).0@ == "debit"@
                && (match (obj@[1]).1 {
                ConfigValue::Obj(d) => metric_map_matches(d@, metrics_split(s.result_spec(), true)),
                _ => false,
            }))
            &&& (metrics_split(s.result_spec(), false).len() > 0 ==> ((obj@[1 + (
            if metrics_split(s.result_spec(), true).len() > 0 {
                1int
            } else {
                0int
            })]).0@ == "latency"@ && (match (obj@[1 + (if metrics_split(s.result_spec(), true).len()
                > 0 {
                1int
            } else {
                0int
            })]).1 {
                ConfigValue::Obj(l) => metric_map_matches(
                    l@,
                    metrics_split(s.result_spec(), false),
                ),
                _ => false,
            })))
        },
        _ => false,
    }
}

/// One plan step.
pub struct SubArgs {
    latency_hmt: usize,
    debit_hmt: usize,
    debit_duration: usize,
    fields: Fields,
    variation: Variation,
    result: Vec<(usize, Vec<u128>)>,
}

impl SubArgs {
    /// Rounds per variation position in latency mode.
    pub closed spec fn latency_hmt_spec(self) -> usize {
        self.latency_hmt
    }

    /// Measurement windows per variation position in throughput mode.
    pub closed spec fn debit_hmt_spec(self) -> usize {
        self.debit_hmt
    }

    /// Length of one throughput window, in seconds.
    pub closed spec fn debit_duration_spec(self) -> usize {
        self.debit_duration
    }

    /// The step's parameter point.
    pub closed spec fn fields_spec(self) -> Fields {
        self.fields
    }

    /// The step's variation cursor.
    pub closed spec fn variation_spec(self) -> Variation {
        self.variation
    }

    /// The collected metrics: slot number and the values gathered so
    /// far, one per finished variation position.
    pub closed spec fn result_spec(self) -> Seq<(usize, Seq<u128>)> {
        self.result@.map_values(|p: (usize, Vec<u128>)| (p.0, p.1@))
    }

    /// True when metric slot `k` is collected.
    pub open spec fn collects(self, k: int) -> bool {
        exists|j: int| 0 <= j < self.result_spec().len() && (#[trigger] self.result_spec()[j]).0 == k
    }

    /// Collected slots are metric slots and pairwise distinct.
    pub closed spec fn wf(self) -> bool {
        &&& self.fields.wf()
        &&& self.variation.wf()
        &&& forall|j: int|
            0 <= j < self.result@.len() ==> (#[trigger] self.result@[j]).0 < 9
        &&& forall|j1: int, j2: int|
            0 <= j1 < j2 < self.result@.len() ==> (#[trigger] self.result@[j1]).0 != (
            #[trigger] self.result@[j2]).0
    }

    /// A step with no metrics, a zeroed parameter point, no variation,
    /// zero repetition counts and a one-second throughput window.
    pub fn new() -> (r: SubArgs)
        ensures
            r.wf(),
            r.latency_hmt_spec() == 0,
            r.debit_hmt_spec() == 0,
            r.debit_duration_spec() == 1,
            r.result_spec().len() == 0,
            r.variation_spec().index_spec() == 0,
            r.variation_spec().end_spec() == 0,
            forall|i: int| 0 <= i < 4 ==> r.fields_spec().view_spec()[i] == 0,
    {
        SubArgs {
            fields: Fields::new(),
            variation: Variation::new(),
            result: Vec::new(),
            latency_hmt: 0,
            debit_duration: 1,
            debit_hmt: 0,
        }
    }

    /// True when the step measures anything besides the two
    /// reconstruction metrics, so that a Sharing phase is needed.
    pub fn has_sharing(&self) -> (r: bool)
        requires
            self.wf(),
        ensures
            r == exists|j: int|
                0 <= j < self.result_spec().len() && (#[trigger] self.result_spec()[j]).0 != 6 && (
                self.result_spec()[j]).0 != 8,
    {
        let mut i: usize = 0;
        let len = self.result.len();
        while i < len
            invariant
                i <= len,
                len == self.result@.len(),
                forall|j: int|
                    0 <= j < i ==> ((#[trigger] self.result_spec()[j]).0 == 6 || (
                    self.result_spec()[j]).0 == 8),
            decreases len - i,
        {
            let k = self.result[i].0;
            if k != 6 && k != 8 {
                proof {
                    assert((self.result_spec()[i as int]).0 == k);
                }
                return true;
            }
            i = i + 1;
        }
        false
    }

    /// Leaves exactly one round to run at the active position.
    pub fn only_once(&mut self, eval: &Evaluation)
        requires
            old(self).wf(),
            old(self).hmt_spec(*eval) >= 1,
        ensures
            final(self).wf(),
            final(self).variation_spec().count_spec() == old(self).hmt_spec(*eval) - 1,
            final(self).result_spec() == old(self).result_spec(),
            final(self).fields_spec() == old(self).fields_spec(),
            final(self).latency_hmt_spec() == old(self).latency_hmt_spec(),
            final(self).debit_hmt_spec() == old(self).debit_hmt_spec(),
    {
        let h = self.hmt(eval);
        self.variation.set_count(h - 1);
    }

    /// The step's parameter point.
    pub fn get_fields(&self) -> (r: &Fields)
        ensures
            *r == self.fields_spec(),
    {
        &self.fields
    }

    /// Starts collecting the named metric, clearing anything already
    /// gathered under it; an unknown name is refused.
    pub fn add_result(&mut self, result: &str) -> (r: Result<(), &'static str>)
        requires
            old(self).wf(),
        ensures
            final(self).wf(),
            final(self).fields_spec() == old(self).fields_spec(),
            final(self).variation_spec() == old(self).variation_spec(),
            final(self).latency_hmt_spec() == old(self).latency_hmt_spec(),
            final(self).debit_hmt_spec() == old(self).debit_hmt_spec(),
            final(self).debit_duration_spec() == old(self).debit_duration_spec(),
            match r {
                Ok(_) => exists|k: int|
                    0 <= k < 9 && #[trigger] metric_name_spec(k) == result@ && final(self).collects(
                        k,
                    ),
                Err(_) => {
                    &&& (forall|k: int| 0 <= k < 9 ==> metric_name_spec(k) != result@)
                    &&& final(self).result_spec() == old(self).result_spec()
                },
            },
    {
        let k = match metric_index(result) {
            Some(k) => k,
            None => {
                return Err("The asked result doesn't exist");
            },
        };
        let len = self.result.len();
        let mut i: usize = 0;
        while i < len
            invariant
                i <= len,
                len == self.result@.len(),
                old(self).wf(),
                *self == *old(self),
                k < 9,
                metric_name_spec(k as int) == result@,
                forall|j: int| 0 <= j < i ==> (#[trigger] self.result@[j]).0 != k,
            decreases len - i,
        {
            if self.result[i].0 == k {
                let entry = (k, Vec::new());
                self.result.set(i, entry);
                proof {
                    assert((self.result_spec()[i as int]).0 == k);
                    assert(metric_name_spec(k as int) == result@);
                    assert(self.collects(k as int));
                }
                return Ok(());
            }
            i = i + 1;
        }
        self.result.push((k, Vec::new()));
        proof {
            assert((self.result_spec()[len as int]).0 == k);
            assert(metric_name_spec(k as int) == result@);
            assert(self.collects(k as int));
        }
        Ok(())
    }

    /// Forgets the rounds seen at the active variation position.
    pub fn reset(&mut self)
        requires
            old(self).wf(),
        ensures
            final(self).wf(),
            final(self).variation_spec().count_spec() == 0,
            final(self).variation_spec().data_spec() == old(self).variation_spec().data_spec(),
            final(self).variation_spec().index_spec() == old(self).variation_spec().index_spec(),
            final(self).variation_spec().end_spec() == old(self).variation_spec().end_spec(),
            final(self).variation_spec().conclusion_spec() == old(self).variation_spec().conclusion_spec(),
            final(self).result_spec() == old(self).result_spec(),
            final(self).fields_spec() == old(self).fields_spec(),
            final(self).latency_hmt_spec() == old(self).latency_hmt_spec(),
            final(self).debit_hmt_spec() == old(self).debit_hmt_spec(),
            final(self).debit_duration_spec() == old(self).debit_duration_spec(),
    {
        self.variation.reset()
    }

    /// Sets the parameter the given configuration name stands for.
    pub fn set_field_from_str(&mut self, field: &str, val: u16)
        requires
            old(self).wf(),
            exists|f: TypeField| f != TypeField::T && #[trigger] f.name_spec() == field@,
        ensures
            final(self).wf(),
            exists|f: TypeField|
                f != TypeField::T && #[trigger] f.name_spec() == field@
                    && final(self).fields_spec().view_spec()
                    == old(self).fields_spec().view_spec().update(f.index_spec(), val),
            final(self).result_spec() == old(self).result_spec(),
            final(self).variation_spec() == old(self).variation_spec(),
    {
        let f = match TypeField::from_name(field) {
            Some(f) => f,
            None => {
                proof {
                    let f0 = choose|f: TypeField|
                        f != TypeField::T && #[trigger] f.name_spec() == field@;
                    assert(false);
                }
                TypeField::N
            },
        };
        self.fields.set(f, val)
    }

    /// Installs a variation and points its parameter at the first value.
    pub fn set_variation_data(&mut self, data: VariationData)
        requires
            old(self).wf(),
            data.wf(),
            data.variation_spec().len() >= 1,
        ensures
            final(self).wf(),
            final(self).variation_spec().data_spec() == data,
            final(self).variation_spec().index_spec() == old(self).variation_spec().index_spec(),
            final(self).fields_spec().view_spec() == old(self).fields_spec().view_spec().update(
                data.field_spec().index_spec(),
                data.variation_spec()[0],
            ),
            final(self).result_spec() == old(self).result_spec(),
    {
        proof {
            data.lemma_wf();
        }
        self.fields.set(data.field(), data.first());
        self.variation.set_data(data);
    }

    /// Sets how many rounds each position runs in latency mode.
    pub fn set_latency_hmt(&mut self, hmt: usize)
        requires
            old(self).wf(),
        ensures
            final(self).wf(),
            final(self).latency_hmt_spec() == hmt,
            final(self).debit_hmt_spec() == old(self).debit_hmt_spec(),
            final(self).debit_duration_spec() == old(self).debit_duration_spec(),
            final(self).fields_spec() == old(self).fields_spec(),
            final(self).variation_spec() == old(self).variation_spec(),
            final(self).result_spec() == old(self).result_spec(),
    {
        self.latency_hmt = hmt;
    }

    /// Sets how many windows each position runs in throughput mode.
    pub fn set_debit_hmt(&mut self, hmt: usize)
        requires
            old(self).wf(),
        ensures
            final(self).wf(),
            final(self).debit_hmt_spec() == hmt,
            final(self).latency_hmt_spec() == old(self).latency_hmt_spec(),
            final(self).debit_duration_spec() == old(self).debit_duration_spec(),
            final(self).fields_spec() == old(self).fields_spec(),
            final(self).variation_spec() == old(self).variation_spec(),
            final(self).result_spec() == old(self).result_spec(),
    {
        self.debit_hmt = hmt;
    }

    /// The repetition count the evaluation mode uses.
    pub open spec fn hmt_spec(self, eval: Evaluation) -> usize {
        match eval {
            Evaluation::Debit(_) => self.debit_hmt_spec(),
            Evaluation::Latency(_) => self.latency_hmt_spec(),
        }
    }

    /// The repetition count the evaluation mode uses.
    pub fn hmt(&self, eval: &Evaluation) -> (r: usize)
        ensures
            r == self.hmt_spec(*eval),
    {
        match eval {
            Evaluation::Debit(_) => self.debit_hmt,
            Evaluation::Latency(_) => self.latency_hmt,
        }
    }

    /// Feeds one round's result in. A failed round is dropped and
    /// nothing moves. After `hmt` rounds at a position, each collected
    /// metric of the mode receives the accumulated value divided by
    /// `hmt` — its per-round mean — and the cursor advances; the first
    /// flag then tells whether the variation is exhausted, upon which
    /// the cursor rewinds and, when `recovering` is set, the step's
    /// conclusion is handed back for checkpointing.
    pub fn evolve(&mut self, result: ResultFields, eval: Evaluation, recovering: bool) -> (r: (
        (bool, bool),
        Option<ConfigValue>,
    ))
        requires
            old(self).wf(),
            result.wf(),
            old(self).variation_spec().count_spec() < usize::MAX,
            old(self).variation_spec().index_spec() < usize::MAX,
            forall|i: int|
                0 <= i < 9 ==> old(self).variation_spec().conclusion_spec().results_spec()[i]
                    + result.results_spec()[i] <= u128::MAX,
            old(self).variation_spec().data_spec().field_spec() == TypeField::TDenom
                ==> old(self).fields_spec().view_spec()[0] >= 1 && (forall|i: int|
                0 <= i < old(self).variation_spec().data_spec().variation_spec().len()
                    ==> #[trigger] old(self).variation_spec().data_spec().variation_spec()[i]
                    != 0),
        ensures
            final(self).wf(),
            final(self).latency_hmt_spec() == old(self).latency_hmt_spec(),
            final(self).debit_hmt_spec() == old(self).debit_hmt_spec(),
            result.code_spec() != crate::ErrorCode::OK ==> r == ((false, false), None::<ConfigValue>)
                && *final(self) == *old(self),
            result.code_spec() == crate::ErrorCode::OK ==> {
                &&& r.0.1 == (old(self).variation_spec().count_spec() + 1 == old(self).hmt_spec(
                    eval,
                ))
                &&& r.0.0 == (r.0.1 && old(self).variation_spec().index_spec() + 1 == old(self).variation_spec().end_spec())
                &&& (!r.0.1 ==> final(self).result_spec() == old(self).result_spec())
                &&& (!r.0.0 ==> r.1 is None)
                &&& (r.0.0 ==> final(self).variation_spec().index_spec() == 0
                    && final(self).variation_spec().count_spec() == 0)
                &&& final(self).variation_spec().data_spec() == old(self).variation_spec().data_spec()
                &&& final(self).variation_spec().end_spec() == old(self).variation_spec().end_spec()
                &&& (!r.0.1 ==> final(self).fields_spec().view_spec() == old(self).fields_spec().view_spec() && final(self).variation_spec().index_spec() == old(self).variation_spec().index_spec()
                    && final(self).variation_spec().count_spec() == old(self).variation_spec().count_spec() + 1)
                &&& (r.0.1 && !r.0.0 ==> final(self).variation_spec().index_spec() == old(self).variation_spec().index_spec() + 1 && (final(self).variation_spec().index_spec()
                    < final(self).variation_spec().end_spec() ==> final(self).fields_spec().view_spec() == old(self).fields_spec().view_spec().update(
                    old(self).variation_spec().data_spec().field_spec().index_spec(),
                    old(self).variation_spec().data_spec().variation_spec()[old(self).variation_spec().index_spec() + 1],
                )) && (final(self).variation_spec().index_spec() >= final(self).variation_spec().end_spec() ==> final(self).fields_spec().view_spec() == old(self).fields_spec().view_spec()))
                &&& (r.0.0 && old(self).variation_spec().end_spec() > 0 ==> final(self).fields_spec().view_spec() == old(self).fields_spec().view_spec().update(
                    old(self).variation_spec().data_spec().field_spec().index_spec(),
                    old(self).variation_spec().data_spec().variation_spec()[0],
                ))
                &&& (r.0.0 && recovering ==> r.1 is Some)
                &&& (r.0.0 && !recovering ==> r.1 is None)
                &&& (r.0.1 ==> forall|j: int|
                    0 <= j < old(self).result_spec().len()
                        ==> (#[trigger] final(self).result_spec()[j]).0
                            == (old(self).result_spec()[j]).0
                        && (is_mode_metric(eval, (old(self).result_spec()[j]).0 as int)
                            ==> (final(self).result_spec()[j]).1
                                == (old(self).result_spec()[j]).1.push(
                                    (((old(self).variation_spec().conclusion_spec().results_spec()[(old(self).result_spec()[j]).0 as int]
                                        + result.results_spec()[(old(self).result_spec()[j]).0 as int])
                                        / (old(self).hmt_spec(eval) as int)) as u128)))
                        && (!is_mode_metric(eval, (old(self).result_spec()[j]).0 as int)
                            ==> (final(self).result_spec()[j]).1
                                == (old(self).result_spec()[j]).1))
            },
    {
        if result.is_err() {
            return ((false, false), None);
        }
        let h = self.hmt(&eval);
        let (stop, conclusion) = self.variation.evolve(h, &mut self.fields, result);
        let evolved = conclusion.is_some();
        let ghost mid = *self;
        match &conclusion {
            Some(conc) => {
                proof {
                    assert(conclusion is Some);
                    assert(old(self).variation_spec().count_spec() + 1 == h);
                    assert(h >= 1);
                }
                let hmt_div = h as u128;
                let len = self.result.len();
                let mut i: usize = 0;
                while i < len
                    invariant
                        i <= len,
                        len == self.result@.len(),
                        old(self).wf(),
                        conc.wf(),
                        hmt_div == h as u128,
                        hmt_div >= 1,
                        forall|q: int|
                            0 <= q < 9 ==> #[trigger] conc.results_spec()[q] == old(self).variation_spec().conclusion_spec().results_spec()[q]
                                + result.results_spec()[q],
                        self.fields == mid.fields,
                        self.variation == mid.variation,
                        self.latency_hmt == mid.latency_hmt,
                        self.debit_hmt == mid.debit_hmt,
                        self.debit_duration == mid.debit_duration,
                        mid.result@ == old(self).result@,
                        forall|j: int|
                            0 <= j < self.result@.len() ==> (#[trigger] self.result@[j]).0 < 9,
                        forall|j1: int, j2: int|
                            0 <= j1 < j2 < self.result@.len() ==> (#[trigger] self.result@[j1]).0
                                != (#[trigger] self.result@[j2]).0,
                        self.result@.len() == old(self).result_spec().len(),
                        forall|j: int|
                            0 <= j < self.result@.len() ==> (#[trigger] self.result_spec()[j]).0
                                == (old(self).result_spec()[j]).0,
                        forall|j: int|
                            i <= j < self.result@.len() ==> (#[trigger] self.result_spec()[j]).1
                                == (old(self).result_spec()[j]).1,
                        forall|j: int|
                            0 <= j < i ==> (is_mode_metric(eval, (
                            #[trigger] self.result_spec()[j]).0 as int) ==> (
                            self.result_spec()[j]).1 == (old(self).result_spec()[j]).1.push(
                                conc.results_spec()[(self.result_spec()[j]).0 as int]
                                    / hmt_div,
                            )),
                        forall|j: int|
                            0 <= j < i ==> (!is_mode_metric(eval, (
                            #[trigger] self.result_spec()[j]).0 as int) ==> (
                            self.result_spec()[j]).1 == (old(self).result_spec()[j]).1),
                    decreases len - i,
                {
                    let k = self.result[i].0;
                    let in_mode = match eval {
                        Evaluation::Debit(_) => k == 7 || k == 8,
                        Evaluation::Latency(_) => k < 7,
                    };
                    if in_mode {
                        let idx_field = metric_field_of(k);
                        let v = conc.get(idx_field) / hmt_div;
                        let mut vals = copy_vals(&self.result[i].1);
                        vals.push(v);
                        let ghost prev = self.result_spec()[i as int].1;
                        let ghost snap = self.result@;
                        let ghost specsnap = self.result_spec();
                        proof {
                            assert(prev == (old(self).result_spec()[i as int]).1);
                            assert(is_mode_metric(eval, k as int));
                            assert(k == snap[i as int].0);
                            assert(k == (specsnap[i as int]).0);
                        }
                        self.result.set(i, (k, vals));
                        proof {
                            assert(self.result@ =~= snap.update(i as int, (k, vals)));
                            assert forall|j: int|
                                0 <= j < snap.len() && j != i implies #[trigger] self.result_spec()[j]
                                == specsnap[j] by {
                                assert(self.result@[j] == snap[j]);
                            }
                            assert((self.result_spec()[i as int]).0 == k);
                            assert((self.result_spec()[i as int]).1 =~= prev.push(
                                conc.results_spec()[k as int] / hmt_div,
                            ));
                            assert forall|j: int|
                                0 <= j < self.result@.len() implies (
                            #[trigger] self.result_spec()[j]).0 == (old(
                            self).result_spec()[j]).0 by {
                                if j != i {
                                    assert(self.result_spec()[j] == specsnap[j]);
                                    assert((specsnap[j]).0 == (old(self).result_spec()[j]).0);
                                } else {
                                    assert((specsnap[j]).0 == (old(self).result_spec()[j]).0);
                                }
                            }
                            assert forall|j: int|
                                i + 1 <= j < self.result@.len() implies (
                            #[trigger] self.result_spec()[j]).1 == (old(
                            self).result_spec()[j]).1 by {
                                assert(self.result_spec()[j] == specsnap[j]);
                                assert((specsnap[j]).1 == (old(self).result_spec()[j]).1);
                            }
                            assert forall|j: int|
                                0 <= j < i + 1 && is_mode_metric(eval, (
                            #[trigger] self.result_spec()[j]).0 as int) implies (
                            self.result_spec()[j]).1 == (old(self).result_spec()[j]).1.push(
                                conc.results_spec()[(self.result_spec()[j]).0 as int] / hmt_div,
                            ) by {
                                if j != i {
                                    assert(self.result_spec()[j] == specsnap[j]);
                                    assert(is_mode_metric(eval, (specsnap[j]).0 as int)
                                        ==> (specsnap[j]).1 == (old(
                                    self).result_spec()[j]).1.push(
                                        conc.results_spec()[(specsnap[j]).0 as int] / hmt_div,
                                    ));
                                }
                            }
                            assert forall|j: int|
                                0 <= j < i + 1 && !is_mode_metric(eval, (
                            #[trigger] self.result_spec()[j]).0 as int) implies (
                            self.result_spec()[j]).1 == (old(self).result_spec()[j]).1 by {
                                if j != i {
                                    assert(self.result_spec()[j] == specsnap[j]);
                                    assert(!is_mode_metric(eval, (specsnap[j]).0 as int)
                                        ==> (specsnap[j]).1 == (old(self).result_spec()[j]).1);
                                }
                            }
                        }
                    } else {
                        proof {
                            assert(!is_mode_metric(eval, k as int));
                            assert((self.result_spec()[i as int]).1 == (old(
                            self).result_spec()[i as int]).1);
                        }
                    }
                    i = i + 1;
                }
            },
            None => {},
        }
        let ghost after_update = self.result_spec();
        proof {
            if evolved {
                let h_int = h as int;
                assert forall|j: int|
                    0 <= j < old(self).result_spec().len() && is_mode_metric(
                        eval,
                        (old(self).result_spec()[j]).0 as int,
                    ) implies (#[trigger] self.result_spec()[j]).1 == (old(self).result_spec()[j]).1.push(
                    (((old(self).variation_spec().conclusion_spec().results_spec()[(old(self).result_spec()[j]).0 as int]
                        + result.results_spec()[(old(self).result_spec()[j]).0 as int])
                        / h_int) as u128),
                ) by {
                    let k0 = (old(self).result_spec()[j]).0 as int;
                    let a = old(self).variation_spec().conclusion_spec().results_spec()[k0]
                        + result.results_spec()[k0];
                    vstd::arithmetic::div_mod::lemma_div_pos_is_pos(a, h as int);
                    vstd::arithmetic::div_mod::lemma_div_nonincreasing(a, h as int);
                }
            }
        }
        let recovery = if stop {
            proof {
                assert(self.fields == mid.fields);
                assert(self.variation == mid.variation);
                assert(self.fields.wf());
                assert(self.variation.wf());
                assert(self.wf());
                self.variation.lemma_wf();
                if self.variation_spec().data_spec().field_spec() == TypeField::TDenom {
                    assert(old(self).variation_spec().data_spec().field_spec()
                        == TypeField::TDenom);
                    assert(old(self).variation_spec().data_spec().field_spec().index_spec() == 1);
                    assert(old(self).variation_spec().count_spec() + 1 == h);
                    if mid.variation.index_spec() < mid.variation.end_spec() {
                        assert(mid.fields.view_spec() == old(
                        self).fields_spec().view_spec().update(
                            1,
                            old(self).variation_spec().data_spec().variation_spec()[mid.variation.index_spec() as int],
                        ));
                        assert(mid.fields.view_spec()[0] == old(
                        self).fields_spec().view_spec()[0]);
                    } else {
                        assert(mid.fields.view_spec() == old(self).fields_spec().view_spec());
                        assert(mid.fields.view_spec()[0] == old(
                        self).fields_spec().view_spec()[0]);
                    }
                }
            }
            let rec = if recovering {
                Some(self.conclude())
            } else {
                None
            };
            self.variation.reset_full(&mut self.fields);
            rec
        } else {
            None
        };
        proof {
            assert(self.result_spec() == after_update);
            if result.code_spec() == crate::ErrorCode::OK {
                assert(self.variation.data_spec() == old(self).variation_spec().data_spec());
                assert(self.variation.end_spec() == old(self).variation_spec().end_spec());
                if !evolved {
                    assert(self.fields.view_spec() == old(self).fields_spec().view_spec());
                    assert(self.variation.index_spec() == old(self).variation_spec().index_spec());
                    assert(self.variation.count_spec() == old(self).variation_spec().count_spec()
                        + 1);
                }
                if evolved && !stop {
                    assert(self.variation.index_spec() == old(self).variation_spec().index_spec()
                        + 1);
                    if self.variation.index_spec() < self.variation.end_spec() {
                        assert(self.fields.view_spec() == old(self).fields_spec().view_spec().update(
                            old(self).variation_spec().data_spec().field_spec().index_spec(),
                            old(self).variation_spec().data_spec().variation_spec()[old(self).variation_spec().index_spec() + 1],
                        ));
                    } else {
                        assert(self.fields.view_spec() == old(self).fields_spec().view_spec());
                    }
                }
                if stop && old(self).variation_spec().end_spec() > 0 {
                    assert(self.fields.view_spec() == old(self).fields_spec().view_spec().update(
                        old(self).variation_spec().data_spec().field_spec().index_spec(),
                        old(self).variation_spec().data_spec().variation_spec()[0],
                    ));
                }
                assert(h == old(self).hmt_spec(eval));
                assert(evolved == (old(self).variation_spec().count_spec() + 1 == old(
                self).hmt_spec(eval)));
                assert(stop == (evolved && old(self).variation_spec().index_spec() + 1 == old(
                self).variation_spec().end_spec()));
                if !evolved {
                    assert(self.result_spec() == old(self).result_spec());
                }
                if evolved {
                    assert forall|j: int|
                        0 <= j < old(self).result_spec().len() implies ((
                    #[trigger] self.result_spec()[j]).0 == (old(self).result_spec()[j]).0 && (
                    is_mode_metric(eval, (old(self).result_spec()[j]).0 as int) ==> (
                    self.result_spec()[j]).1 == (old(self).result_spec()[j]).1.push(
                        (((old(self).variation_spec().conclusion_spec().results_spec()[(old(self).result_spec()[j]).0 as int]
                            + result.results_spec()[(old(self).result_spec()[j]).0 as int])
                            / (old(self).hmt_spec(eval) as int)) as u128),
                    )) && (!is_mode_metric(eval, (old(self).result_spec()[j]).0 as int) ==> (
                    self.result_spec()[j]).1 == (old(self).result_spec()[j]).1)) by {
                        assert((self.result_spec()[j]).0 == (old(self).result_spec()[j]).0);
                    }
                }
            }
        }
        ((stop, evolved), recovery)
    }

    /// The displayed sweep values, the swept parameter's name, and
    /// the values of the three parameters that stay fixed.
    pub fn get_field_and_var(&self) -> (r: (Vec<u32>, String, Vec<(String, u32)>))
        requires
            self.wf(),
            self.variation_spec().data_spec().field_spec() == TypeField::TDenom
                ==> self.fields_spec().view_spec()[0] >= 1 && (forall|i: int|
                0 <= i < self.variation_spec().data_spec().variation_spec().len()
                    ==> #[trigger] self.variation_spec().data_spec().variation_spec()[i] != 0),
        ensures
            r.1@ == self.variation_spec().data_spec().field_spec().name_spec(),
            r.0@ =~= displayed_values(*self),
            r.2@.len() == 3,
            forall|j: int| 0 <= j < 3 ==> (#[trigger] r.2@[j]).0@ != r.1@,
            forall|k: int|
                0 <= k < 3 ==> (#[trigger] r.2@[k]).0@ == base_fields(
                    self.variation_spec().data_spec().field_spec(),
                )[k].name_spec() && (r.2@[k]).1 == self.fields_spec().view_spec()[base_fields(
                    self.variation_spec().data_spec().field_spec(),
                )[k].index_spec()] as u32,
    {
        proof {
            self.variation.lemma_wf();
        }
        let (vec, field) = self.variation.get_field_and_var(self.fields.n());
        proof {
            assert(displayed_values(*self).len() == self.variation_spec().data_spec().variation_spec().len());
            assert forall|q: int| 0 <= q < vec@.len() implies vec@[q] == displayed_values(
                *self,
            )[q] by {
                assert(vec@[q] == (
                if self.variation_spec().data_spec().field_spec() == TypeField::TDenom {
                    (self.fields_spec().view_spec()[0] - 1) as u32 / self.variation_spec().data_spec().variation_spec()[q] as u32
                } else {
                    self.variation_spec().data_spec().variation_spec()[q] as u32
                }));
            }
            assert(vec@ =~= displayed_values(*self));
        }
        let ghost fld = self.variation_spec().data_spec().field_spec();
        let mut base_state: Vec<(String, u32)> = Vec::new();
        let names: [TypeField; 4] = [
            TypeField::N,
            TypeField::TDenom,
            TypeField::NbByz,
            TypeField::ByzComp,
        ];
        let mut i: usize = 0;
        while i < 4
            invariant
                i <= 4,
                self.wf(),
                fld == self.variation_spec().data_spec().field_spec(),
                fld != TypeField::T,
                0 <= fld.index_spec() < 4,
                names@ =~= seq![TypeField::N, TypeField::TDenom, TypeField::NbByz, TypeField::ByzComp],
                forall|j: int| 0 <= j < 4 ==> (#[trigger] names@[j]).index_spec() == j,
                forall|j: int| 0 <= j < 4 ==> (#[trigger] names@[j]) != TypeField::T,
                field@ == fld.name_spec(),
                forall|j: int|
                    0 <= j < base_state@.len() ==> (#[trigger] base_state@[j]).0@ != field@,
                base_state@.len() == (if i as int > fld.index_spec() {
                    i - 1
                } else {
                    i as int
                }),
                forall|k: int|
                    0 <= k < base_state@.len() ==> (#[trigger] base_state@[k]).0@ == base_fields(
                        fld,
                    )[k].name_spec() && (base_state@[k]).1 == self.fields_spec().view_spec()[base_fields(
                        fld,
                    )[k].index_spec()] as u32,
            decreases 4 - i,
        {
            let f = names[i];
            if !crate::str_eq(f.name(), field.as_str()) {
                proof {
                    assert(f.name_spec() != fld.name_spec());
                    assert(f != fld);
                    assert(base_fields(fld)[base_state@.len() as int] == f);
                }
                base_state.push((f.name().to_owned(), self.fields.get(f) as u32));
            } else {
                proof {
                    lemma_field_names_injective(f, fld);
                    assert(f == fld);
                    assert(i as int == fld.index_spec());
                }
            }
            i = i + 1;
        }
        (vec, field, base_state)
    }

    /// The collected metric values as two maps, throughput metrics in
    /// the first, latency metrics in the second, each value list in
    /// sweep order (values are truncated to u64 for the conclusion).
    pub fn get_result_map(&self) -> (r: (ConfigValue, ConfigValue))
        requires
            self.wf(),
        ensures
            r.0 matches ConfigValue::Obj(d) && metric_map_matches(
                d@,
                metrics_split(self.result_spec(), true),
            ),
            r.1 matches ConfigValue::Obj(l) && metric_map_matches(
                l@,
                metrics_split(self.result_spec(), false),
            ),
    {
        let mut debit_entries: Vec<(String, ConfigValue)> = Vec::new();
        let mut latency_entries: Vec<(String, ConfigValue)> = Vec::new();
        let len = self.result.len();
        let mut i: usize = 0;
        proof {
            assert(self.result_spec().take(0) =~= Seq::<(usize, Seq<u128>)>::empty());
        }
        while i < len
            invariant
                i <= len,
                len == self.result@.len(),
                self.wf(),
                metric_map_matches(
                    debit_entries@,
                    metrics_split(self.result_spec().take(i as int), true),
                ),
                metric_map_matches(
                    latency_entries@,
                    metrics_split(self.result_spec().take(i as int), false),
                ),
            decreases len - i,
        {
            let k = self.result[i].0;
            let vals = &self.result[i].1;
            let mut arr: Vec<ConfigValue> = Vec::new();
            let vlen = vals.len();
            let mut j: usize = 0;
            while j < vlen
                invariant
                    j <= vlen,
                    vlen == vals@.len(),
                    arr@.len() == j,
                    forall|q: int|
                        0 <= q < j ==> arr@[q] == ConfigValue::Num(vals@[q] as u64),
                decreases vlen - j,
            {
                arr.push(ConfigValue::Num(vals[j] as u64));
                j = j + 1;
            }
            proof {
                assert((self.result@[i as int]).0 < 9);
                assert((self.result_spec()[i as int]).0 == k);
                assert((self.result_spec()[i as int]).1 == vals@);
                lemma_metrics_split_take(self.result_spec(), true, i as int);
                lemma_metrics_split_take(self.result_spec(), false, i as int);
            }
            let name = metric_name(k).to_owned();
            if k == 7 || k == 8 {
                debit_entries.push((name, ConfigValue::Arr(arr)));
            } else {
                latency_entries.push((name, ConfigValue::Arr(arr)));
            }
            i = i + 1;
        }
        proof {
            assert(self.result_spec().take(len as int) =~= self.result_spec());
        }
        (ConfigValue::Obj(debit_entries), ConfigValue::Obj(latency_entries))
    }

    /// Sets the length of one throughput window, in seconds.
    pub fn set_debit_duration(&mut self, d: usize)
        requires
            old(self).wf(),
        ensures
            final(self).wf(),
            final(self).debit_duration_spec() == d,
            final(self).latency_hmt_spec() == old(self).latency_hmt_spec(),
            final(self).debit_hmt_spec() == old(self).debit_hmt_spec(),
            final(self).fields_spec() == old(self).fields_spec(),
            final(self).variation_spec() == old(self).variation_spec(),
            final(self).result_spec() == old(self).result_spec(),
    {
        self.debit_duration = d;
    }

    /// The length of one throughput window, in seconds.
    pub fn debit(&self) -> (r: usize)
        ensures
            r == self.debit_duration_spec(),
    {
        self.debit_duration
    }

    /// True when the mode's reconstruction metric is collected, so a
    /// Reconstruct phase must follow the Sharing phase.
    pub fn reconstruct(&self, eval: Evaluation) -> (r: bool)
        requires
            self.wf(),
        ensures
            eval is Debit ==> r == self.collects(8),
            eval is Latency ==> r == self.collects(6),
    {
        let k: usize = match eval {
            Evaluation::Debit(_) => 8,
            Evaluation::Latency(_) => 6,
        };
        let len = self.result.len();
        let mut i: usize = 0;
        while i < len
            invariant
                i <= len,
                len == self.result@.len(),
                eval is Debit ==> k == 8,
                eval is Latency ==> k == 6,
                forall|j: int| 0 <= j < i ==> (#[trigger] self.result_spec()[j]).0 != k,
            decreases len - i,
        {
            if self.result[i].0 == k {
                proof {
                    assert((self.result_spec()[i as int]).0 == k);
                    assert(self.collects(k as int));
                }
                return true;
            }
            i = i + 1;
        }
        false
    }

    /// True when the step asks for throughput measurements.
    pub fn has_debit(&self) -> (r: bool)
        ensures
            r == (self.debit_hmt_spec() != 0),
    {
        self.debit_hmt != 0
    }

    /// True when the step asks for latency measurements.
    pub fn has_latency(&self) -> (r: bool)
        ensures
            r == (self.latency_hmt_spec() != 0),
    {
        self.latency_hmt != 0
    }

    /// The step's conclusion: its swept parameter, displayed sweep
    /// values and fixed parameters under "args", then the non-empty
    /// metric maps under "debit" and "latency".
    pub fn conclude(&self) -> (r: ConfigValue)
        requires
            self.wf(),
            self.variation_spec().data_spec().field_spec() == TypeField::TDenom
                ==> self.fields_spec().view_spec()[0] >= 1 && (forall|i: int|
                0 <= i < self.variation_spec().data_spec().variation_spec().len()
                    ==> #[trigger] self.variation_spec().data_spec().variation_spec()[i] != 0),
        ensures
            subarg_conclusion_matches(r, *self),
    {
        let (debit_map, latency_map) = self.get_result_map();
        let (variation, field, base_state) = self.get_field_and_var();
        let mut map: Vec<(String, ConfigValue)> = Vec::new();
        map.push(("field".to_owned(), ConfigValue::Str(field)));
        let mut var_arr: Vec<ConfigValue> = Vec::new();
        let vlen = variation.len();
        let mut i: usize = 0;
        while i < vlen
            invariant
                i <= vlen,
                vlen == variation@.len(),
                var_arr@.len() == i,
                forall|q: int| 0 <= q < i ==> var_arr@[q] == ConfigValue::Num(variation@[q] as u64),
            decreases vlen - i,
        {
            var_arr.push(ConfigValue::Num(variation[i] as u64));
            i = i + 1;
        }
        map.push(("variation".to_owned(), ConfigValue::Arr(var_arr)));
        let ghost head = map@;
        let mut bi: usize = 0;
        let blen = base_state.len();
        let ghost base0 = base_state@;
        let mut base_state = base_state;
        while bi < blen
            invariant
                bi <= blen,
                blen == base_state@.len(),
                map@.len() == 2 + bi,
                map@[0] == head[0],
                map@[1] == head[1],
                forall|q: int|
                    bi <= q < blen ==> base_state@[q] == base0[q],
                forall|q: int|
                    0 <= q < bi ==> (#[trigger] map@[2 + q]).0 == base0[q].0 && (map@[2 + q]).1
                        == ConfigValue::Num(base0[q].1 as u64),
            decreases blen - bi,
        {
            let ghost pre_map = map@;
            let mut entry = (String::new(), 0u32);
            core::mem::swap(&mut entry, &mut base_state[bi]);
            map.push((entry.0, ConfigValue::Num(entry.1 as u64)));
            proof {
                assert forall|q: int|
                    0 <= q < bi + 1 implies (#[trigger] map@[2 + q]).0 == base0[q].0 && (
                map@[2 + q]).1 == ConfigValue::Num(base0[q].1 as u64) by {
                    if q < bi {
                        assert(map@[2 + q] == pre_map[2 + q]);
                    }
                }
            }
            bi = bi + 1;
        }
        let ghost am_seq = map@;
        let ghost split_d = metrics_split(self.result_spec(), true);
        let ghost split_l = metrics_split(self.result_spec(), false);
        let mut obj: Vec<(String, ConfigValue)> = Vec::new();
        obj.push(("args".to_owned(), ConfigValue::Obj(map)));
        let debit_empty = debit_map.as_obj().len() == 0;
        proof {
            assert(debit_empty == (split_d.len() == 0));
        }
        if !debit_empty {
            obj.push(("debit".to_owned(), debit_map));
        }
        let latency_empty = latency_map.as_obj().len() == 0;
        proof {
            assert(latency_empty == (split_l.len() == 0));
        }
        if !latency_empty {
            obj.push(("latency".to_owned(), latency_map));
        }
        let out = ConfigValue::Obj(obj);
        proof {
            assert(am_seq.len() == 5);
            assert((am_seq[0]).0@ == "field"@);
            assert((am_seq[1]).0@ == "variation"@);
            assert forall|k: int|
                0 <= k < 3 implies (#[trigger] am_seq[2 + k]).0@ == base_fields(
                self.variation_spec().data_spec().field_spec(),
            )[k].name_spec() && (am_seq[2 + k]).1 == ConfigValue::Num(
                self.fields_spec().view_spec()[base_fields(
                    self.variation_spec().data_spec().field_spec(),
                )[k].index_spec()] as u64,
            ) by {
                assert((am_seq[2 + k]).0 == base0[k].0);
                assert(base0[k].1 == self.fields_spec().view_spec()[base_fields(
                    self.variation_spec().data_spec().field_spec(),
                )[k].index_spec()] as u32);
            }
            assert(obj@.len() == 1 + (if split_d.len() > 0 {
                1int
            } else {
                0int
            }) + (if split_l.len() > 0 {
                1int
            } else {
                0int
            }));
        }
        out
    }
}

/// True when slot `k` belongs to the mode being measured: the two
/// throughput slots for Debit, the seven latency slots for Latency.
pub open spec fn is_mode_metric(eval: Evaluation, k: int) -> bool {
    match eval {
        Evaluation::Debit(_) => k == 7 || k == 8,
        Evaluation::Latency(_) => 0 <= k < 7,
    }
}

/// The result-vector slot metric `k` is stored in.
fn metric_field_of(k: usize) -> (r: super::result_fields::TypeResultField)
    requires
        k < 9,
    ensures
        r.index_spec() == k,
{
    match k {
        0 => super::result_fields::TypeResultField::Verify,
        1 => super::result_fields::TypeResultField::Dealing,
        2 => super::result_fields::TypeResultField::FirstReceiv,
        3 => super::result_fields::TypeResultField::BroadCasting,
        4 => super::result_fields::TypeResultField::MessagesComputing,
        5 => super::result_fields::TypeResultField::Total,
        6 => super::result_fields::TypeResultField::Reconstruction,
        7 => super::result_fields::TypeResultField::DebitSharing,
        _ => super::result_fields::TypeResultField::DebitReconstruct,
    }
}

/// A copy of a list of durations.
fn copy_vals(v: &Vec<u128>) -> (r: Vec<u128>)
    ensures
        r@ =~= v@,
{
    let mut r: Vec<u128> = Vec::new();
    let len = v.len();
    let mut i: usize = 0;
    while i < len
        invariant
            i <= len,
            len == v@.len(),
            r@ =~= v@.subrange(0, i as int),
        decreases len - i,
    {
        r.push(v[i]);
        proof {
            assert(v@.subrange(0, i as int).push(v@[i as int]) =~= v@.subrange(0, i + 1));
        }
        i = i + 1;
    }
    proof {
        assert(v@.subrange(0, len as int) =~= v@);
    }
    r
}

/// Two of the four named parameters with one name are the same parameter.
pub proof fn lemma_field_names_injective(a: TypeField, b: TypeField)
    requires
        a != TypeField::T,
        b != TypeField::T,
        a.name_spec() == b.name_spec(),
    ensures
        a == b,
{
    reveal_strlit("n");
    reveal_strlit("t");
    reveal_strlit("nb_byz");
    reveal_strlit("byz_comp");
    assert("n"@.len() == 1);
    assert("t"@.len() == 1);
    assert("nb_byz"@.len() == 6);
    assert("byz_comp"@.len() == 8);
    assert("n"@[0] == 'n' && "t"@[0] == 't');
}

} // verus!
