//! The orchestrator: drives rounds across the node population,
//! collects one OUTPUT per node per round, aggregates timings, and
//! advances the benchmark plan.
use vstd::prelude::*;
use crate::{ByzComp, CommandCode, Evaluation, Step};
use crate::bytes_le;
use crate::config_treatment::args::Args;
use crate::config_treatment::fields::TypeField;
use crate::config_treatment::result_fields::{ResultFields, TypeResultField};
use crate::config_treatment::value::ConfigValue;

verus! {

/// What the orchestrator does next after digesting an event.
#[derive(Debug, Clone, Copy, PartialEq, Eq, Structural)]
pub enum NextMove {
    /// Start another Sharing round.
    Share,
    /// Start another Reconstruct round.
    Reconstruct,
    /// Re-enter throughput mode from the top.
    SetupDebit,
    /// The plan is exhausted; write the conclusion.
    Done,
    /// Wait for further events.
    Idle,
}

/// A round accumulator with its Verify and FirstReceiv sums replaced
/// by their per-node arithmetic means over n.
pub open spec fn averaged_results(s: Seq<u128>, n: u16) -> Seq<u128> {
    s.update(0, ((s[0] as int) / (n as int)) as u128).update(
        2,
        ((s[2] as int) / (n as int)) as u128,
    )
}

/// The orchestrator's round-driving state.
pub struct Interface {
    pub args: Args,
    pub eval: Evaluation,
    pub nodes: Vec<String>,
    pub output_count: u16,
    pub result: ResultFields,
    pub reconstruction_time: u128,
    pub hmt: usize,
    pub interrupt: bool,
}

impl Interface {
    /// The state's standing constraints: a plan with the cursor on a
    /// step and a sane accumulator.
    pub open spec fn wf(self) -> bool {
        &&& self.args.wf()
        &&& self.result.wf()
    }

    /// A fresh orchestrator over an empty plan.
    pub fn new() -> (r: Interface)
        ensures
            r.result.wf(),
            r.eval == Evaluation::Latency(Step::Sharing),
            r.output_count == 0,
            r.hmt == 0,
            !r.interrupt,
            r.nodes@.len() == 0,
    {
        Interface {
            args: Args::new_empty(),
            eval: Evaluation::Latency(Step::Sharing),
            output_count: 0,
            nodes: Vec::new(),
            result: ResultFields::new(),
            reconstruction_time: 0,
            hmt: 0,
            interrupt: false,
        }
    }

    /// Suppresses the next round.
    pub fn interrupt(&mut self)
        ensures
            *final(self) == (Interface { interrupt: true, ..*old(self) }),
    {
        self.interrupt = true;
    }

    /// Registers a node's address.
    pub fn add_node(&mut self, addr: String)
        ensures
            final(self).nodes@ == old(self).nodes@.push(addr),
            final(self).args == old(self).args,
            final(self).result == old(self).result,
    {
        self.nodes.push(addr);
    }

    /// Reloads the repetition counter from the active step.
    pub fn reset_hmt(&mut self)
        requires
            old(self).args.wf(),
        ensures
            final(self).hmt == old(self).args.cur().hmt_spec(old(self).eval),
            *final(self) == (Interface { hmt: final(self).hmt, ..*old(self) }),
    {
        self.hmt = self.args.hmt(self.eval);
    }

    /// Installs a parsed configuration: loads the plan, points the
    /// cursor at the first measuring step, and tells whether the run
    /// opens in latency mode (with a Sharing round) or throughput mode.
    pub fn load_file(&mut self, config: &ConfigValue) -> (r: Result<bool, &'static str>)
        requires
            old(self).result.wf(),
        ensures
            final(self).result.wf(),
            r is Ok ==> crate::config_treatment::args::config_ok(*config),
            !crate::config_treatment::args::config_ok(*config) ==> r is Err,
            r matches Ok(latency) ==> final(self).args.wf() && latency == (final(self).eval
                == Evaluation::Latency(Step::Sharing)) && (!latency ==> final(self).eval
                == Evaluation::Debit(Step::Sharing)) && final(self).hmt == final(self).args.cur().hmt_spec(final(self).eval) && (final(self).args.cur().latency_hmt_spec() != 0 || final(self).args.cur().debit_hmt_spec()
                != 0) && (latency ==> forall|q: int|
                0 <= q < final(self).args.current_spec() ==> (#[trigger] final(self).args.args_spec()[q]).latency_hmt_spec() == 0) && (!latency ==> forall|q: int|
                0 <= q < final(self).args.current_spec() ==> (#[trigger] final(self).args.args_spec()[q]).latency_hmt_spec() == 0 && (final(self).args.args_spec()[q]).debit_hmt_spec() == 0),
            r is Err ==> *final(self) == *old(self),
    {
        let args = match Args::from_file(config) {
            Ok(a) => a,
            Err(e) => {
                return Err(e);
            },
        };
        let has_any = args_have_step(&args);
        if !has_any {
            return Err("Please don't start empty config");
        }
        self.args = args;
        self.eval = self.args.init();
        self.reset_hmt();
        let latency = self.eval.is_latency();
        Ok(latency)
    }

    /// How many more node processes the round needs, and whether the
    /// population changed so peer addresses must ride along in SETUP.
    pub fn fix_node_number(&self) -> (r: (usize, bool))
        requires
            self.args.wf(),
            self.args.cur().fields_spec().wf(),
        ensures
            r.0 == (if self.nodes@.len() < self.args.cur().fields_spec().view_spec()[0] {
                self.args.cur().fields_spec().view_spec()[0] - self.nodes@.len()
            } else {
                0int
            }),
            r.1 == (self.args.cur().fields_spec().view_spec()[0] > self.nodes@.len()),
    {
        let n = self.args.n() as usize;
        let have = self.nodes.len();
        if have < n {
            (n - have, true)
        } else {
            (0, false)
        }
    }

    /// True when enough nodes registered to start the round.
    pub fn ready_to_share(&self) -> (r: bool)
        requires
            self.args.wf(),
            self.args.cur().fields_spec().wf(),
        ensures
            r == (self.nodes@.len() >= self.args.cur().fields_spec().view_spec()[0]),
    {
        self.nodes.len() >= self.args.n() as usize
    }

    /// Starts the accumulator over for a round batch.
    pub fn begin_round(&mut self)
        requires
            old(self).wf(),
        ensures
            final(self).wf(),
            final(self).output_count == 0,
            final(self).args == old(self).args,
            final(self).eval == old(self).eval,
            final(self).hmt == old(self).hmt,
    {
        self.output_count = 0;
    }

    /// Re-enters throughput mode: a fresh accumulator, the repetition
    /// counter reloaded, the mode set to Debit Sharing.
    pub fn setup_debit(&mut self)
        requires
            old(self).wf(),
        ensures
            final(self).wf(),
            final(self).eval == Evaluation::Debit(Step::Sharing),
            forall|i: int| 0 <= i < 9 ==> final(self).result.results_spec()[i] == 0,
            final(self).hmt == old(self).args.cur().hmt_spec(Evaluation::Debit(Step::Sharing)),
    {
        self.eval = Evaluation::Debit(Step::Sharing);
        self.reset_hmt();
        self.result = ResultFields::new();
    }

    /// True when the current phase is Reconstruct.
    pub fn is_reconstructing(&self) -> (r: bool)
        ensures
            r == (self.eval.step() == Step::Reconstruct),
    {
        self.eval.is_reconstruct()
    }

    /// Builds this round's SETUP message: the command byte, the
    /// dealer's index, a behaviour byte, t and n, and, when the
    /// population changed, every node address length-prefixed.
    pub fn build_setup(&self, byz: ByzComp, network_changed: bool) -> (r: Vec<u8>)
        requires
            self.args.wf(),
            self.args.cur().fields_spec().wf(),
            self.args.cur().fields_spec().view_spec()[0] >= 1,
            forall|j: int| 0 <= j < self.nodes@.len() ==> (#[trigger] self.nodes@[j])@.len() <= 255,
        ensures
            r@.len() >= 8,
            r@[0] == CommandCode::SETUP.as_byte(),
            r@.subrange(1, 3) =~= bytes_le::le_bytes(
                self.args.cur().fields_spec().view_spec()[2] as nat,
                2,
            ),
            r@[3] == byz.as_byte(),
            r@.subrange(4, 6) =~= bytes_le::le_bytes(
                crate::config_treatment::fields::spec_threshold(
                    self.args.cur().fields_spec().view_spec()[0],
                    self.args.cur().fields_spec().view_spec()[1],
                ) as nat,
                2,
            ),
            r@.subrange(6, 8) =~= bytes_le::le_bytes(
                self.args.cur().fields_spec().view_spec()[0] as nat,
                2,
            ),
            !network_changed ==> r@.len() == 8,
    {
        let mut msg: Vec<u8> = Vec::new();
        msg.push(CommandCode::SETUP.to_u8());
        let dealer = self.args.nb_byz();
        let mut b = bytes_le::le_write(dealer as u128, 2);
        msg.append(&mut b);
        msg.push(byz.to_u8());
        let mut b = bytes_le::le_write(self.args.t() as u128, 2);
        msg.append(&mut b);
        let mut b = bytes_le::le_write(self.args.n() as u128, 2);
        msg.append(&mut b);
        let ghost header = msg@;
        proof {
            assert(header.len() == 8);
            assert(header[0] == CommandCode::SETUP.as_byte());
            assert(header.subrange(1, 3) =~= bytes_le::le_bytes(
                self.args.cur().fields_spec().view_spec()[2] as nat,
                2,
            ));
            assert(header[3] == byz.as_byte());
            assert(header.subrange(4, 6) =~= bytes_le::le_bytes(
                crate::config_treatment::fields::spec_threshold(
                    self.args.cur().fields_spec().view_spec()[0],
                    self.args.cur().fields_spec().view_spec()[1],
                ) as nat,
                2,
            ));
            assert(header.subrange(6, 8) =~= bytes_le::le_bytes(
                self.args.cur().fields_spec().view_spec()[0] as nat,
                2,
            ));
        }
        if network_changed {
            let len = self.nodes.len();
            let mut i: usize = 0;
            while i < len
                invariant
                    i <= len,
                    len == self.nodes@.len(),
                    msg@.len() >= 8,
                    msg@.subrange(0, 8) =~= header,
                decreases len - i,
            {
                let ghost before = msg@;
                let addr_bytes = self.nodes[i].as_str().as_bytes_vec();
                if addr_bytes.len() <= 255 {
                    msg.push(addr_bytes.len() as u8);
                    let mut ab = addr_bytes;
                    msg.append(&mut ab);
                }
                proof {
                    assert(msg@.subrange(0, 8) =~= before.subrange(0, 8));
                    assert(before.subrange(0, 8) =~= header);
                }
                i = i + 1;
            }
        }
        msg
    }

    /// The DEALTHIS message for a round's secret.
    pub fn build_dealthis(secret: u128) -> (r: Vec<u8>)
        ensures
            r@ =~= seq![CommandCode::DEALTHIS.as_byte()] + bytes_le::le_bytes(secret as nat, 16),
    {
        let mut msg: Vec<u8> = Vec::new();
        msg.push(CommandCode::DEALTHIS.to_u8());
        let mut b = bytes_le::le_write(secret, 16);
        msg.append(&mut b);
        msg
    }

    /// Digests one node's OUTPUT. The accumulator takes the report in;
    /// the first flag says the round is complete (all n reported), the
    /// second that reconstruction just reached t+1 reports, so STOP is
    /// owed to every node.
    pub fn new_output(&mut self, report: ResultFields) -> (r: (bool, bool))
        requires
            old(self).wf(),
            old(self).args.cur().fields_spec().wf(),
            old(self).args.cur().fields_spec().view_spec()[0] >= 1,
            old(self).output_count < u16::MAX,
            report.wf(),
            forall|i: int|
                0 <= i < 9 ==> old(self).result.results_spec()[i] + report.results_spec()[i]
                    <= u128::MAX,
        ensures
            final(self).wf(),
            final(self).output_count == old(self).output_count + 1,
            forall|i: int|
                0 <= i < 9 ==> final(self).result.results_spec()[i] == old(self).result.results_spec()[i] + report.results_spec()[i],
            r.0 == (old(self).output_count + 1
                == old(self).args.cur().fields_spec().view_spec()[0]),
            r.1 == (!r.0 && old(self).eval.step() == Step::Reconstruct && old(self).output_count
                + 1 == crate::config_treatment::fields::spec_threshold(
                old(self).args.cur().fields_spec().view_spec()[0],
                old(self).args.cur().fields_spec().view_spec()[1],
            ) + 1),
            r.1 ==> final(self).reconstruction_time == report.results_spec()[6],
            final(self).args == old(self).args,
            final(self).eval == old(self).eval,
            final(self).hmt == old(self).hmt,
    {
        self.output_count = self.output_count + 1;
        let reconstruct_time = report.get(TypeResultField::Reconstruction);
        self.result.accumulate(&report);
        if self.output_count == self.args.n() {
            (true, false)
        } else if self.is_reconstructing() && (self.output_count as u32) == (self.args.t()
            as u32) + 1 {
            self.reconstruction_time = reconstruct_time;
            (false, true)
        } else {
            (false, false)
        }
    }

    /// Ends a completed latency round: one repetition is spent; at
    /// zero the sweep advances a phase, otherwise a reconstructing
    /// batch keeps the snapshotted reconstruction time.
    pub fn finish(&mut self)
        requires
            old(self).wf(),
            old(self).eval is Latency ==> old(self).hmt >= 1,
        ensures
            final(self).wf(),
            old(self).eval is Debit ==> *final(self) == *old(self),
            old(self).eval is Latency && old(self).hmt >= 2 ==> final(self).hmt == old(self).hmt
                - 1,
            old(self).eval is Latency && old(self).hmt == 1 ==> final(self).hmt == final(self).args.cur().hmt_spec(final(self).eval),
    {
        match self.eval {
            Evaluation::Debit(_) => {},
            Evaluation::Latency(_) => {
                self.hmt = self.hmt - 1;
                if self.hmt == 0 {
                    self.hmt_null()
                } else if self.is_reconstructing() {
                    let reconstruction_time = self.reconstruction_time;
                    self.result.set(TypeResultField::Reconstruction, reconstruction_time)
                }
            },
        }
    }

    /// A variation position has run out of repetitions: store the
    /// snapshotted reconstruction time when reconstructing; move to
    /// the Reconstruct phase when the step asks for it and the round
    /// was a Sharing one, else back to Sharing; reload the counter.
    pub fn hmt_null(&mut self)
        requires
            old(self).wf(),
        ensures
            final(self).wf(),
            old(self).eval.step() != Step::Reconstruct && (if old(self).eval is Debit {
                old(self).args.cur().collects(8)
            } else {
                old(self).args.cur().collects(6)
            }) ==> final(self).eval.step() == Step::Reconstruct,
            final(self).hmt == final(self).args.cur().hmt_spec(final(self).eval),
            (final(self).eval is Debit) == (old(self).eval is Debit),
            final(self).args.args_spec().len() == old(self).args.args_spec().len(),
            final(self).args.current_spec() == old(self).args.current_spec(),
            final(self).args.cur().variation_spec().count_spec() <= old(self).args.cur().variation_spec().count_spec(),
            final(self).args.cur().variation_spec().index_spec() == old(self).args.cur().variation_spec().index_spec(),
            final(self).args.cur().variation_spec().conclusion_spec() == old(self).args.cur().variation_spec().conclusion_spec(),
            final(self).args.cur().fields_spec() == old(self).args.cur().fields_spec(),
            final(self).args.cur().latency_hmt_spec() == old(self).args.cur().latency_hmt_spec(),
            final(self).args.cur().debit_hmt_spec() == old(self).args.cur().debit_hmt_spec(),
            final(self).args.cur().debit_duration_spec() == old(self).args.cur().debit_duration_spec(),
            final(self).args.cur().variation_spec().data_spec() == old(self).args.cur().variation_spec().data_spec(),
            forall|i: int|
                0 <= i < old(self).args.args_spec().len() && i != old(self).args.current_spec()
                    ==> final(self).args.args_spec()[i] == old(self).args.args_spec()[i],
            forall|i: int|
                0 <= i < 9 && i != 6 ==> final(self).result.results_spec()[i] == old(self).result.results_spec()[i],
            final(self).result.results_spec()[6] == old(self).result.results_spec()[6] || final(self).result.results_spec()[6] == old(self).reconstruction_time,
    {
        if self.is_reconstructing() {
            let reconstruction_time = self.reconstruction_time;
            self.result.set(TypeResultField::Reconstruction, reconstruction_time)
        }
        if !self.is_reconstructing() && self.args.reconstruct(self.eval) {
            self.eval.change_step(Step::Reconstruct);
            self.args.reset();
        } else {
            self.eval.change_step(Step::Sharing);
        }
        self.reset_hmt();
    }

    /// True when the batch must evolve the plan rather than repeat.
    pub fn should_evolve(&self) -> (r: bool)
        requires
            self.args.wf(),
        ensures
            r == (self.hmt != self.args.cur().hmt_spec(self.eval) || self.eval.step()
                != Step::Reconstruct),
    {
        self.hmt != self.args.hmt(self.eval) || !self.is_reconstructing()
    }

    /// The next move once a round finished or a window closed:
    /// swallow one interrupt, else run the phase the mode is in.
    pub fn again(&mut self) -> (r: NextMove)
        ensures
            old(self).interrupt ==> r == NextMove::Idle && *final(self) == (Interface {
                interrupt: false,
                ..*old(self)
            }),
            !old(self).interrupt ==> *final(self) == *old(self) && (old(self).eval.step()
                == Step::Reconstruct ==> r == NextMove::Reconstruct) && (old(self).eval.step()
                == Step::Sharing ==> r == NextMove::Share),
    {
        if self.interrupt {
            self.interrupt = false;
            NextMove::Idle
        } else if self.is_reconstructing() {
            NextMove::Reconstruct
        } else {
            NextMove::Share
        }
    }

    /// Turns the round batch's accumulated Verify and FirstReceiv
    /// sums into per-node arithmetic means: each becomes its sum
    /// divided by n; every other slot stays.
    pub fn average_round(&mut self)
        requires
            old(self).wf(),
            old(self).args.cur().fields_spec().wf(),
            old(self).args.cur().fields_spec().view_spec()[0] >= 1,
        ensures
            final(self).wf(),
            final(self).result.results_spec()[0] == old(self).result.results_spec()[0] as int / (
            old(self).args.cur().fields_spec().view_spec()[0] as int),
            final(self).result.results_spec()[2] == old(self).result.results_spec()[2] as int / (
            old(self).args.cur().fields_spec().view_spec()[0] as int),
            forall|i: int|
                0 <= i < 9 && i != 0 && i != 2 ==> final(self).result.results_spec()[i] == old(self).result.results_spec()[i],
            final(self).result.code_spec() == old(self).result.code_spec(),
            *final(self) == (Interface { result: final(self).result, ..*old(self) }),
    {
        let n = self.args.n() as u128;
        let average_verify = self.result.get(TypeResultField::Verify) / n;
        let average_first_receiv = self.result.get(TypeResultField::FirstReceiv) / n;
        self.result.set(TypeResultField::Verify, average_verify);
        self.result.set(TypeResultField::FirstReceiv, average_first_receiv);
    }

    /// Ends a latency round batch: the accumulated Verify and
    /// FirstReceiv become per-node arithmetic means (the sums divided
    /// by n), the accumulator is handed to the plan, and the next
    /// move comes back.
    /// Ends a completed latency round batch. The accumulated Verify
    /// and FirstReceiv become per-node arithmetic means, the whole
    /// averaged accumulator is handed to the plan (whose step appends
    /// per-metric means once its position is done), the accumulator
    /// resets to zero, and the next move follows the plan: repeat the
    /// phase, fall back to throughput mode, or conclude.
    pub fn process_latency(&mut self) -> (r: NextMove)
        requires
            old(self).wf(),
            old(self).eval is Latency,
            old(self).result.code_spec() == crate::ErrorCode::OK,
            old(self).args.cur().fields_spec().wf(),
            old(self).args.cur().fields_spec().view_spec()[0] >= 1,
            old(self).args.cur().variation_spec().count_spec() < usize::MAX,
            old(self).args.cur().variation_spec().index_spec() < usize::MAX,
            forall|i: int|
                0 <= i < old(self).args.args_spec().len()
                    ==> (#[trigger] old(self).args.args_spec()[i]).variation_spec().data_spec().field_spec()
                        == TypeField::TDenom ==> (old(self).args.args_spec()[i]).fields_spec().view_spec()[0]
                        >= 1 && (forall|q: int|
                    0 <= q < (old(self).args.args_spec()[i]).variation_spec().data_spec().variation_spec().len()
                        ==> (old(self).args.args_spec()[i]).variation_spec().data_spec().variation_spec()[q] != 0),
            forall|i: int|
                0 <= i < 9 ==> old(self).args.cur().variation_spec().conclusion_spec().results_spec()[i]
                    + old(self).result.results_spec()[i] <= u128::MAX,
        ensures
            final(self).result.wf(),
            forall|i: int| 0 <= i < 9 ==> final(self).result.results_spec()[i] == 0,
            final(self).result.code_spec() == crate::ErrorCode::OK,
            final(self).nodes == old(self).nodes,
            final(self).output_count == old(self).output_count,
            r == NextMove::Done ==> final(self).args.steps_wf(),
            r != NextMove::Done ==> final(self).args.wf(),
            ({
                let n0 = old(self).args.cur().fields_spec().view_spec()[0];
                let fed = averaged_results(old(self).result.results_spec(), n0);
                let cur0 = old(self).args.cur();
                let eval0 = old(self).eval;
                let evolve_now = old(self).hmt != cur0.hmt_spec(eval0) || eval0.step()
                    != Step::Reconstruct;
                let done = cur0.variation_spec().count_spec() + 1 == cur0.hmt_spec(eval0);
                let fin = done && cur0.variation_spec().index_spec() + 1
                    == cur0.variation_spec().end_spec();
                let more = exists|j: int|
                    old(self).args.current_spec() < j < old(self).args.args_spec().len()
                        && crate::config_treatment::args::measures(
                        #[trigger] old(self).args.args_spec()[j],
                        eval0,
                    );
                let any_debit = exists|j: int|
                    0 <= j < old(self).args.args_spec().len() && (#[trigger] old(self).args.args_spec()[j]).debit_hmt_spec() != 0;
                let again_rule = (old(self).interrupt ==> r == NextMove::Idle && !final(self).interrupt) && (!old(self).interrupt ==> (eval0.step() == Step::Reconstruct
                    ==> r == NextMove::Reconstruct) && (eval0.step() == Step::Sharing ==> r
                    == NextMove::Share));
                &&& (!evolve_now ==> final(self).args == old(self).args && final(self).eval
                    == old(self).eval && final(self).hmt == old(self).hmt && again_rule)
                &&& (evolve_now && done ==> (forall|j: int|
                    0 <= j < cur0.result_spec().len()
                        ==> (#[trigger] final(self).args.args_spec()[old(self).args.current_spec() as int].result_spec()[j]).0 == (
                    cur0.result_spec()[j]).0 && (crate::config_treatment::subargs::is_mode_metric(
                        eval0,
                        (cur0.result_spec()[j]).0 as int,
                    ) ==> (final(self).args.args_spec()[old(self).args.current_spec() as int].result_spec()[j]).1 == (
                    cur0.result_spec()[j]).1.push(
                        (((cur0.variation_spec().conclusion_spec().results_spec()[(cur0.result_spec()[j]).0 as int]
                            + fed[(cur0.result_spec()[j]).0 as int]) / (cur0.hmt_spec(
                            eval0,
                        ) as int)) as u128),
                    )) && (!crate::config_treatment::subargs::is_mode_metric(
                        eval0,
                        (cur0.result_spec()[j]).0 as int,
                    ) ==> (final(self).args.args_spec()[old(self).args.current_spec() as int].result_spec()[j]).1 == (
                    cur0.result_spec()[j]).1)))
                &&& (evolve_now && !fin ==> final(self).args.current_spec() == old(self).args.current_spec() && final(self).eval == old(self).eval && again_rule)
                &&& (evolve_now && fin && more ==> old(self).args.current_spec() < final(self).args.current_spec() < old(self).args.args_spec().len()
                    && crate::config_treatment::args::measures(
                    old(self).args.args_spec()[final(self).args.current_spec() as int],
                    eval0,
                ) && (forall|q: int|
                    old(self).args.current_spec() < q < final(self).args.current_spec()
                        ==> !crate::config_treatment::args::measures(
                        #[trigger] old(self).args.args_spec()[q],
                        eval0,
                    )) && final(self).eval == old(self).eval && again_rule)
                &&& (evolve_now && fin && !more && any_debit ==> r == NextMove::SetupDebit
                    && final(self).eval == Evaluation::Debit(Step::Sharing) && final(self).hmt
                    == 1 && (old(self).args.args_spec()[final(self).args.current_spec() as int]).debit_hmt_spec() != 0 && (forall|q: int|
                    0 <= q < final(self).args.current_spec() ==> (#[trigger] old(self).args.args_spec()[q]).debit_hmt_spec() == 0))
                &&& (evolve_now && fin && !more && !any_debit ==> r == NextMove::Done)
            }),
    {
        self.average_round();
        let evolve = self.should_evolve();
        proof {
            vstd::arithmetic::div_mod::lemma_div_nonincreasing(
                old(self).result.results_spec()[0] as int,
                old(self).args.cur().fields_spec().view_spec()[0] as int,
            );
            vstd::arithmetic::div_mod::lemma_div_pos_is_pos(
                old(self).result.results_spec()[0] as int,
                old(self).args.cur().fields_spec().view_spec()[0] as int,
            );
            vstd::arithmetic::div_mod::lemma_div_nonincreasing(
                old(self).result.results_spec()[2] as int,
                old(self).args.cur().fields_spec().view_spec()[0] as int,
            );
            vstd::arithmetic::div_mod::lemma_div_pos_is_pos(
                old(self).result.results_spec()[2] as int,
                old(self).args.cur().fields_spec().view_spec()[0] as int,
            );
        }
        let result = self.result.extract();
        proof {
            assert(result.results_spec() =~= averaged_results(
                old(self).result.results_spec(),
                old(self).args.cur().fields_spec().view_spec()[0],
            ));
        }
        if !evolve {
            return self.again();
        }
        let eval = self.eval;
        let (next_eval, has_changed) = self.args.evolve(result, eval);
        if has_changed {
            self.hmt = 1;
        }
        match next_eval {
            Some(ev) => {
                if ev.is_debit() {
                    self.eval = ev;
                    NextMove::SetupDebit
                } else {
                    self.again()
                }
            },
            None => NextMove::Done,
        }
    }

    /// Ends a throughput round: inside the window the mode's counter
    /// ticks and another round starts at once; past the window the
    /// position is spent and the plan may evolve or conclude.
    pub fn process_debit(&mut self, window_elapsed_ms: u128) -> (r: NextMove)
        requires
            old(self).wf(),
            old(self).args.cur().variation_spec().count_spec() < usize::MAX,
            old(self).args.cur().variation_spec().index_spec() < usize::MAX,
            old(self).hmt >= 1,
            forall|i: int|
                0 <= i < old(self).args.args_spec().len()
                    ==> (#[trigger] old(self).args.args_spec()[i]).variation_spec().data_spec().field_spec()
                        == TypeField::TDenom ==> (old(self).args.args_spec()[i]).fields_spec().view_spec()[0]
                        >= 1 && (forall|q: int|
                    0 <= q < (old(self).args.args_spec()[i]).variation_spec().data_spec().variation_spec().len()
                        ==> (old(self).args.args_spec()[i]).variation_spec().data_spec().variation_spec()[q] != 0),
            forall|i: int|
                0 <= i < 9 ==> old(self).args.cur().variation_spec().conclusion_spec().results_spec()[i]
                    + old(self).result.results_spec()[i] <= u128::MAX,
            old(self).args.cur().variation_spec().conclusion_spec().results_spec()[6] + old(self).reconstruction_time <= u128::MAX,
            old(self).result.results_spec()[7] < u128::MAX,
            old(self).result.results_spec()[8] < u128::MAX,
        ensures
            final(self).result.wf(),
            window_elapsed_ms < old(self).args.cur().debit_duration_spec() * 1000 ==> {
                &&& (old(self).eval.step() == Step::Sharing ==> final(self).result.results_spec()[7] == old(self).result.results_spec()[7] + 1)
                &&& (old(self).eval.step() == Step::Reconstruct ==> final(self).result.results_spec()[8] == old(self).result.results_spec()[8] + 1)
                &&& r != NextMove::Done
            },
    {
        if window_elapsed_ms >= (self.args.debit() as u128) * 1000 {
            self.hmt = self.hmt - 1;
            if self.hmt == 0 {
                self.hmt_null();
            }
            let result = self.result.extract();
            let eval = self.eval;
            if self.should_evolve() {
                match self.args.evolve(result, eval) {
                    (Some(ev), changed) => {
                        if changed {
                            self.hmt = 1;
                        }
                        self.eval = ev;
                    },
                    (None, _) => {
                        return NextMove::Done;
                    },
                }
            }
            self.again()
        } else {
            let field = if self.is_reconstructing() {
                TypeResultField::DebitReconstruct
            } else {
                TypeResultField::DebitSharing
            };
            let val = self.result.get(field) + 1;
            self.result.set(field, val);
            self.again()
        }
    }
}

/// True when some step of the plan measures anything at all.
fn args_have_step(args: &Args) -> (r: bool)
    requires
        args.steps_wf(),
    ensures
        r == exists|i: int|
            0 <= i < args.args_spec().len() && ((#[trigger] args.args_spec()[i]).latency_hmt_spec()
                != 0 || (args.args_spec()[i]).debit_hmt_spec() != 0),
{
    let mut i: usize = 0;
    let len = args.len();
    while i < len
        invariant
            i <= len,
            len == args.args_spec().len(),
            forall|j: int|
                0 <= j < i ==> (#[trigger] args.args_spec()[j]).latency_hmt_spec() == 0 && (
                args.args_spec()[j]).debit_hmt_spec() == 0,
        decreases len - i,
    {
        let step = args.measures_at(i);
        if step.0 || step.1 {
            return true;
        }
        i = i + 1;
    }
    false
}

} // verus!
