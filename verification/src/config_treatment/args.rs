//! The whole benchmark plan: an ordered list of steps, a cursor over
//! them, and the translation of a parsed configuration into the plan.
use vstd::prelude::*;
use crate::{ByzComp, Evaluation, Step};
use super::fields::{Fields, TypeField};
use super::result_fields::ResultFields;
use super::subargs::SubArgs;
use super::value::ConfigValue;
use super::variations::VariationData;

verus! {

/// True when a step measures under the given evaluation mode.
pub open spec fn measures(s: SubArgs, eval: Evaluation) -> bool {
    match eval {
        Evaluation::Debit(_) => s.debit_hmt_spec() != 0,
        Evaluation::Latency(_) => s.latency_hmt_spec() != 0,
    }
}

/// A well-formed configuration head: every entry names the output
/// file or the checkpoint file, with text as its value.
pub open spec fn head_ok(v: ConfigValue) -> bool {
    match v {
        ConfigValue::Obj(m) => forall|j: int|
            0 <= j < m@.len() ==> (((#[trigger] m@[j]).0@ == "output"@ || (m@[j]).0@
                == "recovering_file"@) && (m@[j]).1 is Str),
        _ => false,
    }
}

/// A well-formed `setup` object: every entry names a parameter, with
/// a number or a non-empty well-formed variation list as its value.
pub open spec fn setup_ok(m: Seq<(String, ConfigValue)>) -> bool {
    forall|j: int|
        0 <= j < m.len() ==> ((exists|f: TypeField|
            f != TypeField::T && #[trigger] f.name_spec() == (#[trigger] m[j]).0@) && (match (
        m[j]).1 {
            ConfigValue::Num(_) => true,
            ConfigValue::Arr(a) => super::variations::expand_ok(a@)
                && super::variations::expanded(a@).len() >= 1,
            _ => false,
        }))
}

/// A well-formed `debit` object: window count and length as numbers,
/// and the two throughput metric switches.
pub open spec fn debit_ok(m: Seq<(String, ConfigValue)>) -> bool {
    forall|j: int|
        0 <= j < m.len() ==> (((#[trigger] m[j]).0@ == "hmt"@ && (m[j]).1 is Num) || ((
        m[j]).0@ == "duration"@ && (m[j]).1 is Num) || (m[j]).0@ == "sharing"@ || (m[j]).0@
            == "reconstruct"@)
}

/// A well-formed `latency` object: a round count as a number, and a
/// steps list of known metric names.
pub open spec fn latency_ok(m: Seq<(String, ConfigValue)>) -> bool {
    forall|j: int|
        0 <= j < m.len() ==> (((#[trigger] m[j]).0@ == "hmt"@ && (m[j]).1 is Num) || ((
        m[j]).0@ == "steps"@ && (match (m[j]).1 {
            ConfigValue::Arr(a) => forall|q: int|
                0 <= q < a@.len() ==> (match #[trigger] a@[q] {
                    ConfigValue::Str(name) => exists|k: int|
                        0 <= k < 9 && #[trigger] super::result_fields::metric_name_spec(k)
                            == name@,
                    _ => false,
                }),
            _ => false,
        })))
}

/// A well-formed plan step: `debit`, `latency` and `setup` objects,
/// each well formed, and nothing else.
pub open spec fn step_ok(v: ConfigValue) -> bool {
    match v {
        ConfigValue::Obj(m) => forall|j: int|
            0 <= j < m@.len() ==> (match (#[trigger] m@[j]).1 {
                ConfigValue::Obj(inner) => ((m@[j]).0@ == "debit"@ && debit_ok(inner@)) || ((
                m@[j]).0@ == "latency"@ && latency_ok(inner@)) || ((m@[j]).0@ == "setup"@
                    && setup_ok(inner@)),
                _ => false,
            }),
        _ => false,
    }
}

/// A well-formed configuration: a non-empty array whose head names
/// the files and whose remaining entries are well-formed steps.
pub open spec fn config_ok(v: ConfigValue) -> bool {
    match v {
        ConfigValue::Arr(top) => top@.len() >= 1 && head_ok(top@[0]) && (forall|i: int|
            1 <= i < top@.len() ==> step_ok(#[trigger] top@[i])),
        _ => false,
    }
}

/// The configuration key words differ pairwise.
pub proof fn lemma_config_keys_distinct()
    ensures
        "hmt"@ != "duration"@,
        "hmt"@ != "sharing"@,
        "hmt"@ != "reconstruct"@,
        "hmt"@ != "steps"@,
        "duration"@ != "sharing"@,
        "duration"@ != "reconstruct"@,
        "steps"@ != "hmt"@,
        "output"@ != "recovering_file"@,
        "debit"@ != "latency"@,
        "debit"@ != "setup"@,
        "latency"@ != "setup"@,
{
    reveal_strlit("hmt");
    reveal_strlit("duration");
    reveal_strlit("sharing");
    reveal_strlit("reconstruct");
    reveal_strlit("steps");
    reveal_strlit("output");
    reveal_strlit("recovering_file");
    reveal_strlit("debit");
    reveal_strlit("latency");
    reveal_strlit("setup");
    assert("hmt"@.len() == 3);
    assert("duration"@.len() == 8);
    assert("sharing"@.len() == 7);
    assert("reconstruct"@.len() == 11);
    assert("steps"@.len() == 5);
    assert("output"@.len() == 6);
    assert("recovering_file"@.len() == 15);
    assert("debit"@.len() == 5);
    assert("latency"@.len() == 7);
    assert("setup"@.len() == 5);
    assert("steps"@[0] == 's' && "debit"@[0] == 'd' && "setup"@[0] == 's');
    assert("steps"@[1] == 't' && "setup"@[1] == 'e');
    assert("latency"@[0] == 'l' && "sharing"@[0] == 's');
}

/// The text under the last entry of an object that carries the given
/// key with a text value; configuration entries override earlier ones.
pub open spec fn last_text(m: Seq<(String, ConfigValue)>, key: Seq<char>) -> Option<Seq<char>>
    decreases m.len(),
{
    if m.len() == 0 {
        None
    } else if m.last().0@ == key && m.last().1 is Str {
        match m.last().1 {
            ConfigValue::Str(t) => Some(t@),
            _ => None,
        }
    } else {
        last_text(m.drop_last(), key)
    }
}

/// Reading one more entry overrides the captured text exactly when
/// the entry carries the key with text.
pub proof fn lemma_last_text_take(m: Seq<(String, ConfigValue)>, key: Seq<char>, i: int)
    requires
        0 <= i < m.len(),
    ensures
        last_text(m.take(i + 1), key) == (if m[i].0@ == key && m[i].1 is Str {
            match m[i].1 {
                ConfigValue::Str(t) => Some(t@),
                _ => None::<Seq<char>>,
            }
        } else {
            last_text(m.take(i), key)
        }),
{
    assert(m.take(i + 1).drop_last() =~= m.take(i));
    assert(m.take(i + 1).last() == m[i]);
}

/// A benchmark plan under execution.
pub struct Args {
    args: Vec<SubArgs>,
    current_arg: usize,
    output: String,
    recovering: Option<String>,
    pending_recovery: Option<ConfigValue>,
}

impl Args {
    /// The plan's steps.
    pub closed spec fn args_spec(self) -> Seq<SubArgs> {
        self.args@
    }

    /// The active step's position.
    pub closed spec fn current_spec(self) -> usize {
        self.current_arg
    }

    /// The name the conclusion file is written under.
    pub closed spec fn output_spec(self) -> Seq<char> {
        self.output@
    }

    /// The checkpoint file name, when checkpointing is on.
    pub closed spec fn recovering_spec(self) -> Option<String> {
        self.recovering
    }

    /// A checkpoint conclusion awaiting a write.
    pub closed spec fn pending_recovery_spec(self) -> Option<ConfigValue> {
        self.pending_recovery
    }

    /// Every step of the plan is well formed.
    pub open spec fn steps_wf(self) -> bool {
        forall|i: int| 0 <= i < self.args_spec().len() ==> (#[trigger] self.args_spec()[i]).wf()
    }

    /// The cursor stands on a step.
    pub open spec fn wf(self) -> bool {
        &&& self.steps_wf()
        &&& self.current_spec() < self.args_spec().len()
    }

    /// The active step.
    pub open spec fn cur(self) -> SubArgs {
        self.args_spec()[self.current_spec() as int]
    }

    /// An empty plan: no steps, no file names.
    pub fn new_empty() -> (r: Args)
        ensures
            r.args_spec().len() == 0,
            r.output_spec() == Seq::<char>::empty(),
            r.recovering_spec() is None,
            r.pending_recovery_spec() is None,
    {
        proof {
            reveal_strlit("");
        }
        Args {
            args: Vec::new(),
            current_arg: 0,
            output: "".to_owned(),
            recovering: None,
            pending_recovery: None,
        }
    }

    /// Points the cursor at the first step that measures latency, at
    /// the first that measures throughput when none does, and hands
    /// back the evaluation mode so chosen, starting with Sharing.
    pub fn init(&mut self) -> (r: Evaluation)
        requires
            old(self).steps_wf(),
            exists|i: int|
                0 <= i < old(self).args_spec().len() && ((#[trigger] old(self).args_spec()[i]).latency_hmt_spec() != 0 || (old(self).args_spec()[i]).debit_hmt_spec() != 0),
        ensures
            final(self).wf(),
            final(self).args_spec() == old(self).args_spec(),
            final(self).output_spec() == old(self).output_spec(),
            final(self).recovering_spec() == old(self).recovering_spec(),
            final(self).pending_recovery_spec() == old(self).pending_recovery_spec(),
            r == (if final(self).cur().latency_hmt_spec() != 0 {
                Evaluation::Latency(Step::Sharing)
            } else {
                Evaluation::Debit(Step::Sharing)
            }),
            final(self).cur().latency_hmt_spec() != 0 || final(self).cur().debit_hmt_spec() != 0,
            (exists|i: int|
                0 <= i < old(self).args_spec().len() && (#[trigger] old(self).args_spec()[i]).latency_hmt_spec() != 0) ==> final(self).cur().latency_hmt_spec() != 0 && (forall|q: int|
                0 <= q < final(self).current_spec() ==> (#[trigger] final(self).args_spec()[q]).latency_hmt_spec() == 0),
            (forall|i: int|
                0 <= i < old(self).args_spec().len() ==> (#[trigger] old(self).args_spec()[i]).latency_hmt_spec() == 0) ==> final(self).cur().debit_hmt_spec() != 0 && (forall|q: int|
                0 <= q < final(self).current_spec() ==> (#[trigger] final(self).args_spec()[q]).debit_hmt_spec() == 0),
    {
        let len = self.args.len();
        let mut i: usize = 0;
        while i < len
            invariant
                i <= len,
                len == self.args@.len(),
                *self == *old(self),
                forall|j: int|
                    0 <= j < i ==> (#[trigger] self.args_spec()[j]).latency_hmt_spec() == 0,
            decreases len - i,
        {
            if self.args[i].has_latency() {
                self.current_arg = i;
                proof {
                    assert forall|q: int|
                        0 <= q < self.args_spec().len() implies (
                    #[trigger] self.args_spec()[q]).wf() by {
                        assert(self.args_spec()[q] == old(self).args_spec()[q]);
                        assert((old(self).args_spec()[q]).wf());
                    }
                }
                return Evaluation::Latency(Step::Sharing);
            }
            i = i + 1;
        }
        let mut i: usize = 0;
        while i < len
            invariant
                i <= len,
                len == self.args@.len(),
                *self == *old(self),
                exists|j: int|
                    0 <= j < len && ((#[trigger] self.args_spec()[j]).latency_hmt_spec() != 0 || (
                    self.args_spec()[j]).debit_hmt_spec() != 0),
                forall|j: int|
                    0 <= j < len ==> (#[trigger] self.args_spec()[j]).latency_hmt_spec() == 0,
                forall|j: int|
                    0 <= j < i ==> (#[trigger] self.args_spec()[j]).debit_hmt_spec() == 0,
            decreases len - i,
        {
            if self.args[i].has_debit() {
                self.current_arg = i;
                proof {
                    assert forall|q: int|
                        0 <= q < self.args_spec().len() implies (
                    #[trigger] self.args_spec()[q]).wf() by {
                        assert(self.args_spec()[q] == old(self).args_spec()[q]);
                        assert((old(self).args_spec()[q]).wf());
                    }
                }
                return Evaluation::Debit(Step::Sharing);
            }
            i = i + 1;
        }
        proof {
            assert(false);
        }
        Evaluation::Debit(Step::Sharing)
    }

    /// The active step's throughput window, in seconds.
    pub fn debit(&self) -> (r: usize)
        requires
            self.wf(),
        ensures
            r == self.cur().debit_duration_spec(),
    {
        self.args[self.current_arg].debit()
    }

    /// The active step's parameter point.
    pub fn get_fields(&self) -> (r: &Fields)
        requires
            self.wf(),
        ensures
            *r == self.cur().fields_spec(),
    {
        self.args[self.current_arg].get_fields()
    }

    /// The population size n of the active step.
    pub fn n(&self) -> (r: u16)
        requires
            self.wf(),
            self.cur().fields_spec().wf(),
        ensures
            r == self.cur().fields_spec().view_spec()[0],
    {
        self.get_fields().n()
    }

    /// The derived threshold t of the active step.
    pub fn t(&self) -> (r: u16)
        requires
            self.wf(),
            self.cur().fields_spec().wf(),
            self.cur().fields_spec().view_spec()[0] >= 1,
        ensures
            r == super::fields::spec_threshold(
                self.cur().fields_spec().view_spec()[0],
                self.cur().fields_spec().view_spec()[1],
            ),
    {
        self.get_fields().t()
    }

    /// The number of Byzantine parties of the active step.
    pub fn nb_byz(&self) -> (r: u16)
        requires
            self.wf(),
            self.cur().fields_spec().wf(),
        ensures
            r == self.cur().fields_spec().view_spec()[2],
    {
        self.get_fields().get(TypeField::NbByz)
    }

    /// The Byzantine behaviour of the active step; an unknown stored
    /// value reads as Honnest.
    pub fn byz_comp(&self) -> (r: ByzComp)
        requires
            self.wf(),
            self.cur().fields_spec().wf(),
        ensures
            r.as_byte() as u16 == self.cur().fields_spec().view_spec()[3]
                || (self.cur().fields_spec().view_spec()[3] > 1 && r == ByzComp::Honnest),
    {
        match ByzComp::from_u8(self.get_fields().get(TypeField::ByzComp) as u8) {
            Some(b) => {
                if self.get_fields().get(TypeField::ByzComp) > 1 {
                    ByzComp::Honnest
                } else {
                    b
                }
            },
            None => ByzComp::Honnest,
        }
    }

    /// The active step's repetition count for the given mode.
    pub fn hmt(&self, eval: Evaluation) -> (r: usize)
        requires
            self.wf(),
        ensures
            r == self.cur().hmt_spec(eval),
    {
        self.args[self.current_arg].hmt(&eval)
    }

    /// Forgets the rounds seen at the active step's variation position.
    pub fn reset(&mut self)
        requires
            old(self).wf(),
        ensures
            final(self).wf(),
            final(self).args_spec().len() == old(self).args_spec().len(),
            final(self).current_spec() == old(self).current_spec(),
            final(self).cur().variation_spec().count_spec() == 0,
            final(self).cur().variation_spec().data_spec() == old(self).cur().variation_spec().data_spec(),
            final(self).cur().variation_spec().index_spec() == old(self).cur().variation_spec().index_spec(),
            final(self).cur().variation_spec().conclusion_spec() == old(self).cur().variation_spec().conclusion_spec(),
            final(self).cur().fields_spec() == old(self).cur().fields_spec(),
            final(self).cur().latency_hmt_spec() == old(self).cur().latency_hmt_spec(),
            final(self).cur().debit_hmt_spec() == old(self).cur().debit_hmt_spec(),
            final(self).cur().debit_duration_spec() == old(self).cur().debit_duration_spec(),
            final(self).cur().result_spec() == old(self).cur().result_spec(),
            forall|i: int|
                0 <= i < old(self).args_spec().len() && i != old(self).current_spec()
                    ==> final(self).args_spec()[i] == old(self).args_spec()[i],
    {
        let i = self.current_arg;
        let mut cur = SubArgs::new();
        core::mem::swap(&mut cur, &mut self.args[i]);
        cur.reset();
        core::mem::swap(&mut cur, &mut self.args[i]);
        proof {
            assert(final(self).cur() == self.args@[i as int]);
        }
    }

    /// True when the active step wants a Reconstruct phase after
    /// Sharing under the given mode.
    pub fn reconstruct(&self, eval: Evaluation) -> (r: bool)
        requires
            self.wf(),
        ensures
            eval is Debit ==> r == self.cur().collects(8),
            eval is Latency ==> r == self.cur().collects(6),
    {
        self.args[self.current_arg].reconstruct(eval)
    }

    /// A checkpoint conclusion to append to the checkpoint file, when
    /// one is waiting; the caller writes it out.
    pub fn take_recovery(&mut self) -> (r: Option<(String, ConfigValue)>)
        ensures
            final(self).pending_recovery_spec() is None,
            final(self).args_spec() == old(self).args_spec(),
            final(self).current_spec() == old(self).current_spec(),
            r is Some <==> (old(self).pending_recovery_spec() is Some && old(self).recovering_spec() is Some),
    {
        let mut pending: Option<ConfigValue> = None;
        core::mem::swap(&mut pending, &mut self.pending_recovery);
        match (pending, &self.recovering) {
            (Some(v), Some(name)) => Some((clone_string(name), v)),
            _ => None,
        }
    }

    /// How many steps the plan holds.
    pub fn len(&self) -> (r: usize)
        ensures
            r == self.args_spec().len(),
    {
        self.args.len()
    }

    /// Whether step `i` measures latency and whether it measures
    /// throughput.
    pub fn measures_at(&self, i: usize) -> (r: (bool, bool))
        requires
            (i as int) < self.args_spec().len(),
        ensures
            r.0 == ((self.args_spec()[i as int]).latency_hmt_spec() != 0),
            r.1 == ((self.args_spec()[i as int]).debit_hmt_spec() != 0),
    {
        (self.args[i].has_latency(), self.args[i].has_debit())
    }

    /// The name the conclusion file is written under.
    pub fn output(&self) -> (r: &String)
        ensures
            r@ == self.output_spec(),
    {
        &self.output
    }

    /// Feeds one completed round into the active step. When the step
    /// finishes its variation, the cursor advances to the next step
    /// that measures under the current mode; past the end of the plan
    /// a latency run falls back to the first throughput step, and with
    /// nothing left the run is over and `None` comes back. The flag
    /// says whether the caller must run the next phase exactly once
    /// because the upcoming step never measures Sharing.
    pub fn evolve(&mut self, result: ResultFields, eval: Evaluation) -> (r: (
        Option<Evaluation>,
        bool,
    ))
        requires
            old(self).wf(),
            result.wf(),
            old(self).cur().variation_spec().count_spec() < usize::MAX,
            old(self).cur().variation_spec().index_spec() < usize::MAX,
            forall|i: int|
                0 <= i < 9 ==> old(self).cur().variation_spec().conclusion_spec().results_spec()[i]
                    + result.results_spec()[i] <= u128::MAX,
            old(self).cur().variation_spec().data_spec().field_spec() == TypeField::TDenom
                ==> old(self).cur().fields_spec().view_spec()[0] >= 1 && (forall|i: int|
                0 <= i < old(self).cur().variation_spec().data_spec().variation_spec().len()
                    ==> #[trigger] old(self).cur().variation_spec().data_spec().variation_spec()[i] != 0),
            forall|i: int|
                0 <= i < old(self).args_spec().len()
                    ==> (#[trigger] old(self).args_spec()[i]).variation_spec().data_spec().field_spec()
                        == TypeField::TDenom ==> (old(self).args_spec()[i]).fields_spec().view_spec()[0] >= 1 && (forall|q: int|
                    0 <= q < (old(self).args_spec()[i]).variation_spec().data_spec().variation_spec().len()
                        ==> (old(self).args_spec()[i]).variation_spec().data_spec().variation_spec()[q] != 0),
        ensures
            final(self).steps_wf(),
            final(self).args_spec().len() == old(self).args_spec().len(),
            r.0 is Some ==> final(self).wf(),
            result.code_spec() != crate::ErrorCode::OK ==> r == (
                Some(eval),
                false,
            ) && final(self).current_spec() == old(self).current_spec() && final(self).args_spec()
                == old(self).args_spec(),
            result.code_spec() == crate::ErrorCode::OK ==> ({
                let cur0 = old(self).cur();
                let done = cur0.variation_spec().count_spec() + 1 == cur0.hmt_spec(eval);
                let fin = done && cur0.variation_spec().index_spec() + 1
                    == cur0.variation_spec().end_spec();
                let more = exists|j: int|
                    old(self).current_spec() < j < old(self).args_spec().len() && measures(
                        #[trigger] old(self).args_spec()[j],
                        eval,
                    );
                let any_debit = exists|j: int|
                    0 <= j < old(self).args_spec().len() && (#[trigger] old(self).args_spec()[j]).debit_hmt_spec() != 0;
                &&& (forall|q: int|
                    0 <= q < old(self).args_spec().len() && q != old(self).current_spec() && q
                        != final(self).current_spec() ==> final(self).args_spec()[q] == old(self).args_spec()[q])
                &&& (!fin ==> final(self).current_spec() == old(self).current_spec() && r.0
                    == Some(eval))
                &&& (fin && more ==> r.0 == Some(eval) && old(self).current_spec() < final(self).current_spec() < old(self).args_spec().len() && measures(
                    old(self).args_spec()[final(self).current_spec() as int],
                    eval,
                ) && (forall|q: int|
                    old(self).current_spec() < q < final(self).current_spec() ==> !measures(
                        #[trigger] old(self).args_spec()[q],
                        eval,
                    )))
                &&& (fin && !more && eval is Latency && any_debit ==> r.0 == Some(
                    Evaluation::Debit(Step::Sharing),
                ) && r.1 == true && (old(self).args_spec()[final(self).current_spec() as int]).debit_hmt_spec() != 0 && (forall|q: int|
                    0 <= q < final(self).current_spec() ==> (#[trigger] old(self).args_spec()[q]).debit_hmt_spec() == 0))
                &&& (r.0 is None <==> fin && !more && !(eval is Latency && any_debit))
                &&& (done ==> (forall|j: int|
                    0 <= j < cur0.result_spec().len()
                        ==> (#[trigger] final(self).args_spec()[old(self).current_spec() as int].result_spec()[j]).0 == (cur0.result_spec()[j]).0 && (
                    super::subargs::is_mode_metric(eval, (cur0.result_spec()[j]).0 as int) ==> (
                    final(self).args_spec()[old(self).current_spec() as int].result_spec()[j]).1
                        == (cur0.result_spec()[j]).1.push(
                        (((cur0.variation_spec().conclusion_spec().results_spec()[(cur0.result_spec()[j]).0 as int]
                            + result.results_spec()[(cur0.result_spec()[j]).0 as int]) / (
                        cur0.hmt_spec(eval) as int)) as u128),
                    )) && (!super::subargs::is_mode_metric(eval, (cur0.result_spec()[j]).0 as int)
                        ==> (final(self).args_spec()[old(self).current_spec() as int].result_spec()[j]).1 == (cur0.result_spec()[j]).1)))
                &&& (!done ==> final(self).args_spec()[old(self).current_spec() as int].result_spec()
                    == cur0.result_spec())
            }),
    {
        let i0 = self.current_arg;
        let recovering = self.recovering.is_some();
        let mut cur = SubArgs::new();
        core::mem::swap(&mut cur, &mut self.args[i0]);
        let ((finished, evolved), recovery) = cur.evolve(result, eval, recovering);
        core::mem::swap(&mut cur, &mut self.args[i0]);
        proof {
            assert(self.args@[i0 as int].wf());
            assert(forall|j: int|
                0 <= j < self.args@.len() && j != i0 ==> (#[trigger] self.args@[j]) == old(self).args_spec()[j]);
        }
        if recovery.is_some() {
            self.pending_recovery = recovery;
        }
        if finished {
            proof {
                assert(result.code_spec() == crate::ErrorCode::OK);
                assert forall|q: int|
                    0 <= q < self.args@.len() implies ((#[trigger] self.args_spec()[q]).wf()
                    && (self.args_spec()[q]).debit_hmt_spec() == (old(
                self).args_spec()[q]).debit_hmt_spec()) by {
                    if q != i0 {
                        assert(self.args_spec()[q] == old(self).args_spec()[q]);
                    }
                }
            }
            let len = self.args.len();
            let mut next = len;
            let mut j = self.current_arg + 1;
            while j < len
                invariant
                    i0 < j || j == i0 + 1,
                    j <= len,
                    next == len || (i0 < next < j && measures(old(self).args_spec()[next as int], eval)),
                    next == len ==> forall|q: int|
                        i0 < q < j ==> !measures(#[trigger] old(self).args_spec()[q], eval),
                    next < len ==> forall|q: int|
                        i0 < q < next ==> !measures(#[trigger] old(self).args_spec()[q], eval),
                decreases len - j,
            {
                let matches_mode = match eval {
                    Evaluation::Debit(_) => self.args[j].has_debit(),
                    Evaluation::Latency(_) => self.args[j].has_latency(),
                };
                proof {
                    if j != i0 {
                        assert(self.args_spec()[j as int] == old(self).args_spec()[j as int]);
                    }
                }
                if matches_mode && next >= len {
                    next = j;
                }
                j = j + 1;
            }
            if next >= len {
                if eval.is_latency() {
                    let mut fallback = len;
                    let mut k: usize = 0;
                    while k < len
                        invariant
                            k <= len,
                            fallback == len || fallback < k,
                            fallback == len ==> forall|q: int|
                                0 <= q < k ==> (#[trigger] self.args_spec()[q]).debit_hmt_spec()
                                    == 0,
                            fallback < len ==> (self.args_spec()[fallback as int]).debit_hmt_spec()
                                != 0 && (forall|q: int|
                                0 <= q < fallback ==> (#[trigger] self.args_spec()[q]).debit_hmt_spec()
                                    == 0),
                        decreases len - k,
                    {
                        if self.args[k].has_debit() && fallback >= len {
                            fallback = k;
                        }
                        k = k + 1;
                    }
                    if fallback < len {
                        self.current_arg = fallback;
                        proof {
                            assert forall|q: int|
                                0 <= q < self.args_spec().len() implies (
                            #[trigger] self.args_spec()[q]).wf() by {
                                assert((old(self).args_spec()[q]).wf());
                            }
                            assert forall|q: int|
                                0 <= q < fallback implies (#[trigger] old(
                            self).args_spec()[q]).debit_hmt_spec() == 0 by {
                                assert((self.args_spec()[q]).debit_hmt_spec() == 0);
                            }
                            assert((self.args_spec()[fallback as int]).debit_hmt_spec() != 0);
                            assert((old(self).args_spec()[fallback as int]).debit_hmt_spec()
                                != 0);
                            assert(self.args_spec()[i0 as int].result_spec()
                                == self.args@[i0 as int].result_spec());
                        }
                        return (Some(Evaluation::Debit(Step::Sharing)), true);
                    }
                    proof {
                        assert forall|q: int|
                            0 <= q < old(self).args_spec().len() implies (#[trigger] old(
                        self).args_spec()[q]).debit_hmt_spec() == 0 by {
                            assert((self.args_spec()[q]).debit_hmt_spec() == 0);
                        }
                    }
                }
                return (None, true);
            }
            self.current_arg = next;
            proof {
                assert forall|q: int|
                    0 <= q < self.args_spec().len() implies (
                #[trigger] self.args_spec()[q]).wf() by {
                    assert((old(self).args_spec()[q]).wf());
                }
            }
        }
        let share_once = if (evolved || finished) && !self.args[self.current_arg].has_sharing() {
            let i1 = self.current_arg;
            let mut cur = SubArgs::new();
            core::mem::swap(&mut cur, &mut self.args[i1]);
            if cur.hmt(&eval) >= 1 {
                cur.only_once(&eval);
            }
            core::mem::swap(&mut cur, &mut self.args[i1]);
            proof {
                assert(self.args@[i1 as int].wf());
            }
            true
        } else {
            false
        };
        (Some(eval), share_once)
    }

    /// The plan's conclusion: one entry per step, in order, each the
    /// step's own conclusion.
    pub fn conclude(&self) -> (r: ConfigValue)
        requires
            self.steps_wf(),
            forall|i: int|
                0 <= i < self.args_spec().len()
                    ==> (#[trigger] self.args_spec()[i]).variation_spec().data_spec().field_spec()
                        == TypeField::TDenom ==> (self.args_spec()[i]).fields_spec().view_spec()[0]
                        >= 1 && (forall|q: int|
                    0 <= q < (self.args_spec()[i]).variation_spec().data_spec().variation_spec().len()
                        ==> (self.args_spec()[i]).variation_spec().data_spec().variation_spec()[q] != 0),
        ensures
            r matches ConfigValue::Arr(entries) && entries@.len() == self.args_spec().len() && (
            forall|i: int|
                0 <= i < self.args_spec().len()
                    ==> super::subargs::subarg_conclusion_matches(
                    #[trigger] entries@[i],
                    self.args_spec()[i],
                )),
    {
        let mut entries: Vec<ConfigValue> = Vec::new();
        let len = self.args.len();
        let mut i: usize = 0;
        while i < len
            invariant
                i <= len,
                len == self.args@.len(),
                entries@.len() == i,
                forall|q: int|
                    0 <= q < i ==> super::subargs::subarg_conclusion_matches(
                        #[trigger] entries@[q],
                        self.args_spec()[q],
                    ),
                self.steps_wf(),
                forall|q0: int|
                    0 <= q0 < self.args_spec().len()
                        ==> (#[trigger] self.args_spec()[q0]).variation_spec().data_spec().field_spec()
                            == TypeField::TDenom ==> (self.args_spec()[q0]).fields_spec().view_spec()[0]
                            >= 1 && (forall|q: int|
                        0 <= q < (self.args_spec()[q0]).variation_spec().data_spec().variation_spec().len()
                            ==> (self.args_spec()[q0]).variation_spec().data_spec().variation_spec()[q] != 0),
            decreases len - i,
        {
            proof {
                assert((self.args_spec()[i as int]).wf());
            }
            entries.push(self.args[i].conclude());
            i = i + 1;
        }
        ConfigValue::Arr(entries)
    }

    /// Reads the head entry of a configuration: the output file name
    /// and the optional checkpoint file name.
    fn handle_args(res: &mut Args, args: &ConfigValue) -> (r: Result<(), &'static str>)
        ensures
            final(res).args_spec() == old(res).args_spec(),
            final(res).current_spec() == old(res).current_spec(),
            r is Ok <==> head_ok(*args),
            r is Ok ==> (args matches ConfigValue::Obj(m) && final(res).output_spec() == (
            match last_text(m@, "output"@) {
                Some(t) => t,
                None => old(res).output_spec(),
            }) && (match last_text(m@, "recovering_file"@) {
                Some(t) => final(res).recovering_spec() matches Some(f) && f@ == t,
                None => final(res).recovering_spec() == old(res).recovering_spec(),
            })),
    {
        let entries = match args {
            ConfigValue::Obj(m) => m,
            _ => {
                return Err("Unvalid field in args");
            },
        };
        let len = entries.len();
        let mut i: usize = 0;
        while i < len
            invariant
                i <= len,
                len == entries@.len(),
                *args == ConfigValue::Obj(*entries),
                res.args_spec() == old(res).args_spec(),
                res.current_spec() == old(res).current_spec(),
                res.output_spec() == (match last_text(entries@.take(i as int), "output"@) {
                    Some(t) => t,
                    None => old(res).output_spec(),
                }),
                (match last_text(entries@.take(i as int), "recovering_file"@) {
                    Some(t) => res.recovering_spec() matches Some(f) && f@ == t,
                    None => res.recovering_spec() == old(res).recovering_spec(),
                }),
                forall|j: int|
                    0 <= j < i ==> (((#[trigger] entries@[j]).0@ == "output"@ || (
                    entries@[j]).0@ == "recovering_file"@) && (entries@[j]).1 is Str),
            decreases len - i,
        {
            let key = &entries[i].0;
            if crate::str_eq(key.as_str(), "output") {
                match &entries[i].1 {
                    ConfigValue::Str(s) => {
                        res.output = clone_string(s);
                    },
                    _ => {
                        return Err("Unvalid field in args");
                    },
                }
            } else if crate::str_eq(key.as_str(), "recovering_file") {
                match &entries[i].1 {
                    ConfigValue::Str(s) => {
                        res.recovering = Some(clone_string(s));
                    },
                    _ => {
                        return Err("Unvalid field in args");
                    },
                }
            } else {
                return Err("Unvalid field in args");
            }
            proof {
                lemma_last_text_take(entries@, "output"@, i as int);
                lemma_last_text_take(entries@, "recovering_file"@, i as int);
                lemma_config_keys_distinct();
            }
            i = i + 1;
        }
        proof {
            assert(entries@.take(len as int) =~= entries@);
        }
        Ok(())
    }

    /// Reads one step's `setup` entry: fixed parameters and at most
    /// one swept variation.
    fn handle_setup(setup: &Vec<(String, ConfigValue)>, subarg: &mut SubArgs) -> (r: Result<
        (),
        &'static str,
    >)
        requires
            old(subarg).wf(),
            old(subarg).variation_spec().index_spec() == 0,
        ensures
            final(subarg).wf(),
            final(subarg).variation_spec().index_spec() == old(
                subarg,
            ).variation_spec().index_spec(),
            r is Ok <==> setup_ok(setup@),
    {
        let len = setup.len();
        let mut i: usize = 0;
        while i < len
            invariant
                i <= len,
                len == setup@.len(),
                subarg.wf(),
                subarg.variation_spec().index_spec() == 0,
                old(subarg).variation_spec().index_spec() == 0,
                forall|j: int|
                    0 <= j < i ==> ((exists|f: TypeField|
                        f != TypeField::T && #[trigger] f.name_spec() == (
                        #[trigger] setup@[j]).0@) && (match (setup@[j]).1 {
                        ConfigValue::Num(_) => true,
                        ConfigValue::Arr(a) => super::variations::expand_ok(a@)
                            && super::variations::expanded(a@).len() >= 1,
                        _ => false,
                    })),
            decreases len - i,
        {
            let key = &setup[i].0;
            match &setup[i].1 {
                ConfigValue::Num(_) => {
                    if TypeField::from_name(key.as_str()).is_none() {
                        return Err("Invalid arg for the setup");
                    }
                    subarg.set_field_from_str(key.as_str(), setup[i].1.as_u16());
                },
                ConfigValue::Arr(arr) => {
                    if TypeField::from_name(key.as_str()).is_none() {
                        return Err("Invalid arg for the setup");
                    }
                    let data = match VariationData::from_serde_str(key.as_str(), arr) {
                        Ok(d) => d,
                        Err(e) => {
                            return Err(e);
                        },
                    };
                    if data.count() == 0 {
                        return Err("Invalid arg for the setup");
                    }
                    subarg.set_variation_data(data);
                },
                _ => {
                    return Err("Invalid arg for the setup");
                },
            }
            i = i + 1;
        }
        Ok(())
    }

    /// Reads one step's `debit` entry: window count, window length,
    /// and which throughput metrics to collect.
    fn handle_debit(val: &Vec<(String, ConfigValue)>, subarg: &mut SubArgs) -> (r: Result<
        (),
        &'static str,
    >)
        requires
            old(subarg).wf(),
        ensures
            final(subarg).wf(),
            final(subarg).variation_spec().index_spec() == old(
                subarg,
            ).variation_spec().index_spec(),
            r is Ok <==> debit_ok(val@),
    {
        let len = val.len();
        let mut i: usize = 0;
        while i < len
            invariant
                i <= len,
                len == val@.len(),
                subarg.wf(),
                subarg.variation_spec().index_spec() == old(subarg).variation_spec().index_spec(),
                forall|j: int|
                    0 <= j < i ==> (((#[trigger] val@[j]).0@ == "hmt"@ && (val@[j]).1 is Num)
                        || ((val@[j]).0@ == "duration"@ && (val@[j]).1 is Num) || (val@[j]).0@
                        == "sharing"@ || (val@[j]).0@ == "reconstruct"@),
            decreases len - i,
        {
            let key = &val[i].0;
            if crate::str_eq(key.as_str(), "hmt") {
                match &val[i].1 {
                    ConfigValue::Num(_) => subarg.set_debit_hmt(val[i].1.as_usize()),
                    _ => {
                        proof {
                            lemma_config_keys_distinct();
                        }
                        return Err("Invalid key for the debit");
                    },
                }
            } else if crate::str_eq(key.as_str(), "duration") {
                match &val[i].1 {
                    ConfigValue::Num(_) => subarg.set_debit_duration(val[i].1.as_usize()),
                    _ => {
                        proof {
                            lemma_config_keys_distinct();
                        }
                        return Err("Invalid key for the debit");
                    },
                }
            } else if crate::str_eq(key.as_str(), "sharing") || crate::str_eq(
                key.as_str(),
                "reconstruct",
            ) {
                let truthy = matches!(&val[i].1, ConfigValue::Bool(true));
                if truthy {
                    match subarg.add_result(key.as_str()) {
                        Ok(_) => {},
                        Err(e) => {
                            proof {
                                assert(super::result_fields::metric_name_spec(7) == "sharing"@);
                                assert(super::result_fields::metric_name_spec(8)
                                    == "reconstruct"@);
                                assert(false);
                            }
                            return Err(e);
                        },
                    }
                }
            } else {
                return Err("Invalid key for the debit");
            }
            i = i + 1;
        }
        Ok(())
    }

    /// Reads one step's `latency` entry: round count and the latency
    /// metrics to collect.
    fn handle_latency(val: &Vec<(String, ConfigValue)>, subarg: &mut SubArgs) -> (r: Result<
        (),
        &'static str,
    >)
        requires
            old(subarg).wf(),
        ensures
            final(subarg).wf(),
            final(subarg).variation_spec().index_spec() == old(
                subarg,
            ).variation_spec().index_spec(),
            r is Ok <==> latency_ok(val@),
    {
        let len = val.len();
        let mut i: usize = 0;
        while i < len
            invariant
                i <= len,
                len == val@.len(),
                subarg.wf(),
                subarg.variation_spec().index_spec() == old(subarg).variation_spec().index_spec(),
                forall|j: int|
                    0 <= j < i ==> (((#[trigger] val@[j]).0@ == "hmt"@ && (val@[j]).1 is Num)
                        || ((val@[j]).0@ == "steps"@ && (match (val@[j]).1 {
                        ConfigValue::Arr(a) => forall|q: int|
                            0 <= q < a@.len() ==> (match #[trigger] a@[q] {
                                ConfigValue::Str(name) => exists|k: int|
                                    0 <= k < 9
                                        && #[trigger] super::result_fields::metric_name_spec(k)
                                        == name@,
                                _ => false,
                            }),
                        _ => false,
                    }))),
            decreases len - i,
        {
            let key = &val[i].0;
            if crate::str_eq(key.as_str(), "hmt") {
                match &val[i].1 {
                    ConfigValue::Num(_) => subarg.set_latency_hmt(val[i].1.as_usize()),
                    _ => {
                        proof {
                            lemma_config_keys_distinct();
                        }
                        return Err("Invalid key for the latency");
                    },
                }
            } else if crate::str_eq(key.as_str(), "steps") {
                let arr = match &val[i].1 {
                    ConfigValue::Arr(a) => a,
                    _ => {
                        return Err("Invalid key for the latency");
                    },
                };
                let alen = arr.len();
                let mut j: usize = 0;
                while j < alen
                    invariant
                        j <= alen,
                        alen == arr@.len(),
                        subarg.wf(),
                        subarg.variation_spec().index_spec() == old(
                            subarg,
                        ).variation_spec().index_spec(),
                        forall|q: int|
                            0 <= q < j ==> (match #[trigger] arr@[q] {
                                ConfigValue::Str(name) => exists|k: int|
                                    0 <= k < 9
                                        && #[trigger] super::result_fields::metric_name_spec(k)
                                        == name@,
                                _ => false,
                            }),
                    decreases alen - j,
                {
                    let step = match &arr[j] {
                        ConfigValue::Str(s) => s,
                        _ => {
                            return Err("Invalid key for the latency");
                        },
                    };
                    match subarg.add_result(step.as_str()) {
                        Ok(_) => {},
                        Err(e) => {
                            return Err(e);
                        },
                    }
                    j = j + 1;
                }
            } else {
                return Err("Invalid key for the latency");
            }
            i = i + 1;
        }
        Ok(())
    }

    /// Builds a plan from a parsed configuration: an array whose head
    /// names the output files and whose remaining entries each
    /// describe one step by `setup`, `debit` and `latency` objects.
    pub fn from_file(config: &ConfigValue) -> (r: Result<Args, &'static str>)
        ensures
            r is Ok <==> config_ok(*config),
            r matches Ok(args) ==> args.steps_wf() && (config matches ConfigValue::Arr(top)
                && args.args_spec().len() + 1 == top@.len() && (top@[0] matches ConfigValue::Obj(
                m,
            ) && args.output_spec() == (match last_text(m@, "output"@) {
                Some(t) => t,
                None => Seq::<char>::empty(),
            }) && (match last_text(m@, "recovering_file"@) {
                Some(t) => args.recovering_spec() matches Some(f) && f@ == t,
                None => args.recovering_spec() is None,
            }))),
    {
        let mut res = Args::new_empty();
        let top = match config {
            ConfigValue::Arr(a) => a,
            _ => {
                return Err("Invalid key");
            },
        };
        if top.len() == 0 {
            return Err("Invalid key");
        }
        match Self::handle_args(&mut res, &top[0]) {
            Ok(_) => {},
            Err(e) => {
                return Err(e);
            },
        }
        let ghost out0 = res.output_spec();
        let ghost rec0 = res.recovering_spec();
        let len = top.len();
        let mut i: usize = 1;
        while i < len
            invariant
                1 <= i <= len,
                len == top@.len(),
                *config == ConfigValue::Arr(*top),
                head_ok(top@[0]),
                res.output_spec() == out0,
                res.recovering_spec() == rec0,
                res.steps_wf(),
                res.args_spec().len() == i - 1,
                forall|q: int| 1 <= q < i ==> step_ok(#[trigger] top@[q]),
            decreases len - i,
        {
            let sim = match &top[i] {
                ConfigValue::Obj(m) => m,
                _ => {
                    return Err("Invalid key");
                },
            };
            let mut subarg = SubArgs::new();
            let slen = sim.len();
            let mut j: usize = 0;
            while j < slen
                invariant
                    j <= slen,
                    slen == sim@.len(),
                    top@[i as int] == ConfigValue::Obj(*sim),
                    subarg.wf(),
                    subarg.variation_spec().index_spec() == 0,
                    forall|q: int|
                        0 <= q < j ==> (match (#[trigger] sim@[q]).1 {
                            ConfigValue::Obj(inner) => ((sim@[q]).0@ == "debit"@ && debit_ok(
                                inner@,
                            )) || ((sim@[q]).0@ == "latency"@ && latency_ok(inner@)) || ((
                            sim@[q]).0@ == "setup"@ && setup_ok(inner@)),
                            _ => false,
                        }),
                decreases slen - j,
            {
                let key = &sim[j].0;
                let val = match &sim[j].1 {
                    ConfigValue::Obj(m) => m,
                    _ => {
                        return Err("Invalid key");
                    },
                };
                let outcome = if crate::str_eq(key.as_str(), "debit") {
                    Self::handle_debit(val, &mut subarg)
                } else if crate::str_eq(key.as_str(), "latency") {
                    Self::handle_latency(val, &mut subarg)
                } else if crate::str_eq(key.as_str(), "setup") {
                    Self::handle_setup(val, &mut subarg)
                } else {
                    Err("Invalid key")
                };
                match outcome {
                    Ok(_) => {},
                    Err(e) => {
                        proof {
                            lemma_config_keys_distinct();
                        }
                        return Err(e);
                    },
                }
                j = j + 1;
            }
            res.args.push(subarg);
            i = i + 1;
        }
        Ok(res)
    }
}

/// A character-for-character copy of a string.
pub fn clone_string(s: &String) -> (r: String)
    ensures
        r@ == s@,
{
    s.as_str().to_owned()
}

} // verus!
