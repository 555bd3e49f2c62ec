//! One share-holding participant: its identity, peer directory, the
//! two share sets it maintains, and the state its message handlers
//! step through.
use vstd::prelude::*;
use crate::{ByzComp, CommandCode, ErrorCode, InterfaceCode, Step};
use crate::bytes_le;
use crate::config_treatment::result_fields::{ResultFields, TypeResultField, RESULT_FIELDS_SIZE};
use crate::crypto::{Commitment, Proof, PublicKey, Share, Sign};

verus! {

/// An acknowledgement forwarded to the dealer task: the signer's
/// index and signature.
pub enum DealerMessage {
    Message(u16, Sign),
}

/// A peer as this node knows it: its address and public key.
#[derive(Debug, Clone)]
pub struct ExternNode {
    pub addr: String,
    pub p_key: PublicKey,
}

impl ExternNode {
    /// A peer record.
    pub fn new(p_key: PublicKey, addr: String) -> (r: ExternNode)
        ensures
            r.p_key == p_key,
            r.addr == addr,
    {
        ExternNode { addr, p_key }
    }

    /// The peer's address.
    pub fn addr(&self) -> (r: &str)
        ensures
            r@ == self.addr@,
    {
        self.addr.as_str()
    }
}

/// How many slots of a share table are filled.
pub open spec fn num_filled(s: Seq<Option<(Share, Proof)>>) -> nat
    decreases s.len(),
{
    if s.len() == 0 {
        0
    } else {
        num_filled(s.drop_last()) + (if s.last() is Some {
            1nat
        } else {
            0nat
        })
    }
}

/// A party's collected shares: an optional commitment and one slot
/// per party index.
pub struct ShareSet {
    pub comm: Option<Commitment>,
    pub set: Vec<Option<(Share, Proof)>>,
}

impl ShareSet {
    /// True when the table holds an entry for party `i`.
    pub open spec fn contains_spec(self, i: int) -> bool {
        0 <= i < self.set@.len() && self.set@[i] is Some
    }

    /// An empty table without a commitment.
    pub fn new() -> (r: ShareSet)
        ensures
            r.comm is None,
            r.set@.len() == 0,
    {
        ShareSet { comm: None, set: Vec::new() }
    }

    /// Drops every entry and the commitment.
    pub fn clear(&mut self)
        ensures
            final(self).comm is None,
            final(self).set@.len() == 0,
    {
        self.set.clear();
        self.comm = None;
    }

    /// How many entries the table holds.
    pub fn len(&self) -> (r: usize)
        ensures
            r == num_filled(self.set@),
    {
        let mut count: usize = 0;
        let n = self.set.len();
        let mut i: usize = 0;
        proof {
            assert(self.set@.subrange(0, 0) =~= Seq::<Option<(Share, Proof)>>::empty());
        }
        while i < n
            invariant
                i <= n,
                n == self.set@.len(),
                count == num_filled(self.set@.subrange(0, i as int)),
                count <= i,
            decreases n - i,
        {
            proof {
                assert(self.set@.subrange(0, i + 1).drop_last() =~= self.set@.subrange(
                    0,
                    i as int,
                ));
            }
            if self.set[i].is_some() {
                count = count + 1;
            }
            i = i + 1;
        }
        proof {
            assert(self.set@.subrange(0, n as int) =~= self.set@);
        }
        count
    }

    /// True when the table holds an entry for party `i`.
    pub fn contains(&self, i: u16) -> (r: bool)
        ensures
            r == self.contains_spec(i as int),
    {
        (i as usize) < self.set.len() && self.set[i as usize].is_some()
    }

    /// Party `i`'s entry.
    pub fn get(&self, i: u16) -> (r: &(Share, Proof))
        requires
            self.contains_spec(i as int),
        ensures
            Some(*r) == self.set@[i as int],
    {
        match &self.set[i as usize] {
            Some(p) => p,
            None => vstd::pervasive::unreached(),
        }
    }

    /// Stores party `i`'s share and proof, growing the table as
    /// needed; an existing entry is overwritten.
    pub fn new_share(&mut self, i: u16, share: Share, proof: Proof)
        ensures
            final(self).comm == old(self).comm,
            final(self).set@.len() >= old(self).set@.len(),
            final(self).set@.len() >= i + 1,
            final(self).set@[i as int] == Some((share, proof)),
            forall|j: int|
                0 <= j < final(self).set@.len() && j != i ==> final(self).set@[j] == (
                if j < old(self).set@.len() {
                    old(self).set@[j]
                } else {
                    None::<(Share, Proof)>
                }),
    {
        while self.set.len() < (i as usize) + 1
            invariant
                self.comm == old(self).comm,
                self.set@.len() >= old(self).set@.len(),
                forall|j: int|
                    0 <= j < self.set@.len() ==> self.set@[j] == (
                    if j < old(self).set@.len() {
                        old(self).set@[j]
                    } else {
                        None::<(Share, Proof)>
                    }),
            decreases i + 1 - self.set@.len(),
        {
            self.set.push(None);
        }
        self.set.set(i as usize, Some((share, proof)));
    }

    /// Installs the commitment.
    pub fn set_comm(&mut self, comm: Commitment)
        ensures
            final(self).comm == Some(comm),
            final(self).set == old(self).set,
    {
        self.comm = Some(comm)
    }

    /// The installed commitment.
    pub fn get_comm(&self) -> (r: &Commitment)
        requires
            self.comm is Some,
        ensures
            Some(*r) == self.comm,
    {
        match &self.comm {
            Some(c) => c,
            None => vstd::pervasive::unreached(),
        }
    }

    /// An entry-for-entry copy of the table.
    pub fn duplicate(&self) -> (r: ShareSet)
        ensures
            r.set@.len() == self.set@.len(),
            forall|j: int|
                0 <= j < self.set@.len() ==> entry_eq(r.set@[j], self.set@[j]),
            match (r.comm, self.comm) {
                (Some(a), Some(b)) => a.vkey@ == b.vkey@ && a.comm@ == b.comm@ && a.degree_bound
                    == b.degree_bound,
                (None, None) => true,
                _ => false,
            },
    {
        let comm = match &self.comm {
            Some(c) => Some(
                Commitment {
                    vkey: crate::copy_bytes(&c.vkey),
                    comm: crate::copy_bytes(&c.comm),
                    degree_bound: c.degree_bound,
                },
            ),
            None => None,
        };
        let mut set: Vec<Option<(Share, Proof)>> = Vec::new();
        let n = self.set.len();
        let mut i: usize = 0;
        while i < n
            invariant
                i <= n,
                n == self.set@.len(),
                set@.len() == i,
                forall|j: int| 0 <= j < i ==> entry_eq(set@[j], self.set@[j]),
            decreases n - i,
        {
            let entry = match &self.set[i] {
                Some(p) => Some(
                    (
                        Share { bytes: crate::copy_bytes(&p.0.bytes) },
                        Proof { bytes: crate::copy_bytes(&p.1.bytes) },
                    ),
                ),
                None => None,
            };
            set.push(entry);
            i = i + 1;
        }
        ShareSet { comm, set }
    }
}

/// Two table entries hold the same bytes.
pub open spec fn entry_eq(a: Option<(Share, Proof)>, b: Option<(Share, Proof)>) -> bool {
    match (a, b) {
        (Some(x), Some(y)) => x.0@ == y.0@ && x.1@ == y.1@,
        (None, None) => true,
        _ => false,
    }
}

/// One share-holding participant.
pub struct Node {
    pub t: u16,
    pub n: u16,
    pub connected_node: u16,
    pub port: u16,
    pub network: Vec<ExternNode>,
    pub dealer: u16,
    pub byz_comp: ByzComp,
    pub index: u16,
    pub key_pkcs8: Vec<u8>,
    pub key_pub_der: Vec<u8>,
    pub im_setup: bool,
    pub shares: ShareSet,
    pub reconstruct_share_set: ShareSet,
    pub result: ResultFields,
    pub im_done: bool,
    pub stop: bool,
    pub step: Step,
}

impl Node {
    /// The result vector always holds its nine slots.
    pub open spec fn wf(self) -> bool {
        self.result.wf()
    }

    /// A fresh node, knowing nobody, holding the given key pair.
    pub fn new(port: u16, key_pkcs8: Vec<u8>, key_pub_der: Vec<u8>) -> (r: Node)
        ensures
            r.wf(),
            r.t == 0 && r.n == 0 && r.connected_node == 0 && r.dealer == 0 && r.index == 0,
            r.byz_comp == ByzComp::Honnest,
            !r.im_setup && !r.im_done && !r.stop,
            r.step == Step::Sharing,
            r.network@.len() == 0,
            r.shares.set@.len() == 0 && r.shares.comm is None,
            r.reconstruct_share_set.set@.len() == 0,
            r.port == port,
            r.key_pkcs8 == key_pkcs8,
            r.key_pub_der == key_pub_der,
    {
        Node {
            t: 0,
            n: 0,
            connected_node: 0,
            network: Vec::new(),
            dealer: 0,
            index: 0,
            byz_comp: ByzComp::Honnest,
            key_pkcs8,
            key_pub_der,
            im_setup: false,
            im_done: false,
            shares: ShareSet::new(),
            reconstruct_share_set: ShareSet::new(),
            stop: false,
            port,
            result: ResultFields::new(),
            step: Step::Sharing,
        }
    }

    /// Handles SETUP: adopts the round parameters, clears the round
    /// flags and the sharing table, and, when the population grew,
    /// appends the new peers. A node meeting its peers for the first
    /// time also learns its own index from its port. Hands back, when
    /// peers were added, the KEY message to publish and the position
    /// of the first peer that still needs it.
    pub fn setup(
        &mut self,
        dealer: u16,
        byz_comp: ByzComp,
        t: u16,
        n: u16,
        peer_addrs: &Vec<String>,
    ) -> (r: Option<(Vec<u8>, usize)>)
        requires
            old(self).wf(),
            old(self).key_pub_der@.len() + 4 <= 0xffff_ffff,
            peer_addrs@.len() <= u16::MAX,
            n > old(self).network@.len() ==> peer_addrs@.len() >= old(self).network@.len(),
            n > old(self).network@.len() && old(self).network@.len() == 0 ==> (forall|j: int|
                0 <= j < peer_addrs@.len() ==> crate::has_valid_port(
                    (#[trigger] peer_addrs@[j])@,
                )) && (exists|j: int|
                0 <= j < peer_addrs@.len() && crate::digits_value(
                    crate::port_digits((#[trigger] peer_addrs@[j])@),
                ) == old(self).port),
        ensures
            final(self).wf(),
            !final(self).im_done,
            final(self).im_setup,
            final(self).step == Step::Sharing,
            final(self).dealer == dealer,
            final(self).byz_comp == byz_comp,
            final(self).t == t,
            final(self).n == n,
            final(self).shares.set@.len() == 0 && final(self).shares.comm is None,
            n > old(self).network@.len() ==> final(self).network@.len() == peer_addrs@.len() && (
            r matches Some(p) && p.1 == old(self).network@.len() && p.0@.len() >= 7 && p.0@[0]
                == crate::CommandCode::KEY.as_byte()),
            n <= old(self).network@.len() ==> final(self).network == old(self).network && r
                is None,
    {
        self.im_done = false;
        self.im_setup = false;
        self.step = Step::Sharing;
        self.dealer = dealer;
        self.byz_comp = byz_comp;
        self.t = t;
        self.n = n;
        let mut reply: Option<(Vec<u8>, usize)> = None;
        if (n as usize) > self.network.len() {
            let existing = self.network.len();
            if existing <= u16::MAX as usize {
                self.connected_node = existing as u16;
            }
            let total = peer_addrs.len();
            let ghost mid = *self;
            let mut i: usize = existing;
            while i < total
                invariant
                    existing <= i <= total,
                    total == peer_addrs@.len(),
                    self.network@.len() == i,
                    *self == (Node { network: self.network, ..mid }),
                    self.port == old(self).port,
                    forall|q: int|
                        0 <= q < existing ==> self.network@[q] == old(self).network@[q],
                    forall|q: int|
                        existing <= q < i ==> (#[trigger] self.network@[q]).addr@
                            == peer_addrs@[q]@,
                decreases total - i,
            {
                let addr = crate::config_treatment::args::clone_string(&peer_addrs[i]);
                self.network.push(ExternNode { addr, p_key: Vec::new() });
                i = i + 1;
            }
            if existing == 0 {
                proof {
                    assert forall|j: int|
                        0 <= j < self.network@.len() implies crate::has_valid_port(
                        (#[trigger] self.network@[j]).addr@,
                    ) by {
                        assert(self.network@[j].addr@ == peer_addrs@[j]@);
                    }
                    let w = choose|j: int|
                        0 <= j < peer_addrs@.len() && crate::digits_value(
                            crate::port_digits((#[trigger] peer_addrs@[j])@),
                        ) == old(self).port;
                    assert(crate::digits_value(
                        crate::port_digits(self.network@[w].addr@),
                    ) == self.port);
                }
                self.set_index();
            }
            let key = self.encode_key();
            reply = Some((key, existing));
        }
        self.shares.clear();
        self.im_setup = true;
        reply
    }

    /// Learns this node's own index: the position of the first peer
    /// whose address carries this node's port.
    pub fn set_index(&mut self)
        requires
            old(self).network@.len() <= u16::MAX,
            forall|j: int|
                0 <= j < old(self).network@.len() ==> crate::has_valid_port(
                    (#[trigger] old(self).network@[j]).addr@,
                ),
            exists|j: int|
                0 <= j < old(self).network@.len() && crate::digits_value(
                    crate::port_digits((#[trigger] old(self).network@[j]).addr@),
                ) == old(self).port,
        ensures
            *final(self) == (Node { index: final(self).index, ..*old(self) }),
            final(self).index < final(self).network@.len(),
            crate::digits_value(
                crate::port_digits(final(self).network@[final(self).index as int].addr@),
            ) == final(self).port,
    {
        let len = self.network.len();
        let mut i: usize = 0;
        while i < len
            invariant
                i <= len,
                len == self.network@.len(),
                *self == *old(self),
                forall|j: int|
                    0 <= j < i ==> crate::digits_value(
                        crate::port_digits((#[trigger] self.network@[j]).addr@),
                    ) != self.port,
            decreases len - i,
        {
            if crate::extract_port(self.network[i].addr()) == self.port {
                self.index = i as u16;
                return;
            }
            i = i + 1;
        }
        proof {
            assert(false);
        }
    }

    /// This node's KEY message: the command byte, its index, and its
    /// length-prefixed public key.
    pub fn encode_key(&self) -> (r: Vec<u8>)
        requires
            self.key_pub_der@.len() + 4 <= 0xffff_ffff,
        ensures
            r@ =~= seq![CommandCode::KEY.as_byte()] + bytes_le::le_bytes(self.index as nat, 2)
                + bytes_le::le_bytes(self.key_pub_der@.len(), 4) + self.key_pub_der@,
    {
        let mut r: Vec<u8> = Vec::new();
        r.push(CommandCode::KEY.to_u8());
        let mut idx = bytes_le::le_write(self.index as u128, 2);
        r.append(&mut idx);
        let mut len = bytes_le::le_write(self.key_pub_der.len() as u128, 4);
        r.append(&mut len);
        let mut key = crate::copy_bytes(&self.key_pub_der);
        r.append(&mut key);
        r
    }

    /// Records a peer's public key and counts the connection.
    pub fn new_key(&mut self, i: u16, key: Vec<u8>)
        requires
            (i as int) < old(self).network@.len(),
            old(self).connected_node < u16::MAX,
        ensures
            final(self).network@.len() == old(self).network@.len(),
            final(self).network@[i as int].p_key == key,
            final(self).network@[i as int].addr@ == old(self).network@[i as int].addr@,
            forall|j: int|
                0 <= j < old(self).network@.len() && j != i ==> final(self).network@[j] == old(self).network@[j],
            final(self).connected_node == old(self).connected_node + 1,
            final(self).result == old(self).result,
            final(self).im_done == old(self).im_done,
            final(self).shares == old(self).shares,
    {
        let addr_copy = crate::config_treatment::args::clone_string(&self.network[i as usize].addr);
        let entry = ExternNode { addr: addr_copy, p_key: key };
        let ghost oldaddr = self.network@[i as int].addr;
        self.network.set(i as usize, entry);
        proof {
            assert(self.network@[i as int].addr@ == oldaddr@);
        }
        self.connected_node = self.connected_node + 1;
    }

    /// True when setup has run and every peer's key arrived.
    pub fn im_ready(&self) -> (r: bool)
        ensures
            r == (self.im_setup && self.network@.len() <= self.connected_node),
    {
        self.im_setup && self.network.len() <= self.connected_node as usize
    }

    /// Stores a share under the phase's active table.
    pub fn save_share(&mut self, i: u16, share: Share, proof: Proof)
        ensures
            final(self).step == old(self).step,
            old(self).step == Step::Sharing ==> final(self).reconstruct_share_set == old(self).reconstruct_share_set && final(self).shares.set@.len() >= i + 1 && final(self).shares.set@.len() >= old(self).shares.set@.len() && final(self).shares.set@[i as int] == Some((share, proof)) && final(self).shares.comm == old(self).shares.comm && (forall|j: int|
                0 <= j < final(self).shares.set@.len() && j != i ==> final(self).shares.set@[j]
                    == (if j < old(self).shares.set@.len() {
                    old(self).shares.set@[j]
                } else {
                    None::<(Share, Proof)>
                })),
            old(self).step == Step::Reconstruct ==> final(self).shares == old(self).shares
                && final(self).reconstruct_share_set.set@.len() >= i + 1 && final(self).reconstruct_share_set.set@.len() >= old(self).reconstruct_share_set.set@.len() && final(self).reconstruct_share_set.set@[i as int] == Some((share, proof)) && final(self).reconstruct_share_set.comm == old(self).reconstruct_share_set.comm && (forall|j: int|
                0 <= j < final(self).reconstruct_share_set.set@.len() && j != i ==> final(self).reconstruct_share_set.set@[j] == (if j < old(self).reconstruct_share_set.set@.len() {
                    old(self).reconstruct_share_set.set@[j]
                } else {
                    None::<(Share, Proof)>
                })),
            *final(self) == (Node {
                shares: final(self).shares,
                reconstruct_share_set: final(self).reconstruct_share_set,
                ..*old(self)
            }),
    {
        match self.step {
            Step::Sharing => self.shares.new_share(i, share, proof),
            Step::Reconstruct => self.reconstruct_share_set.new_share(i, share, proof),
        }
    }

    /// The phase's active table.
    pub open spec fn current_set(self) -> ShareSet {
        if self.step == Step::Sharing {
            self.shares
        } else {
            self.reconstruct_share_set
        }
    }

    /// The phase's active table.
    pub fn get_current_set(&self) -> (r: &ShareSet)
        ensures
            self.step == Step::Sharing ==> r == &self.shares,
            self.step == Step::Reconstruct ==> r == &self.reconstruct_share_set,
    {
        match self.step {
            Step::Sharing => &self.shares,
            Step::Reconstruct => &self.reconstruct_share_set,
        }
    }

    /// The phase's active table, for writing.
    pub fn get_current_set_mut(&mut self) -> (r: &mut ShareSet)
        ensures
            old(self).step == Step::Sharing ==> *r == old(self).shares && *final(self) == (Node {
                shares: *final(r),
                ..*old(self)
            }),
            old(self).step == Step::Reconstruct ==> *r == old(self).reconstruct_share_set && *final(self) == (Node { reconstruct_share_set: *final(r), ..*old(self) }),
    {
        match self.step {
            Step::Sharing => &mut self.shares,
            Step::Reconstruct => &mut self.reconstruct_share_set,
        }
    }

    /// This node's own share in the active table.
    pub fn my_share(&self) -> (r: &Share)
        requires
            self.current_set().contains_spec(self.index as int),
        ensures
            self.current_set().set@[self.index as int] matches Some(p) && *r == p.0,
    {
        &self.get_current_set().get(self.index).0
    }

    /// This node's own proof in the active table.
    pub fn my_proof(&self) -> (r: &Proof)
        requires
            self.current_set().contains_spec(self.index as int),
        ensures
            self.current_set().set@[self.index as int] matches Some(p) && *r == p.1,
    {
        &self.get_current_set().get(self.index).1
    }

    /// True when this node deals the current round.
    pub fn im_dealer(&self) -> (r: bool)
        ensures
            r == (self.index == self.dealer),
    {
        self.index == self.dealer
    }

    /// The result slots the OUTPUT message carries: the dealer's
    /// Sharing OUTPUT stamps the round total, a Reconstruct OUTPUT
    /// stamps the reconstruction time, any other leaves them as
    /// accumulated.
    pub open spec fn stamped_results(self, step: Step, elapsed_ms: u128) -> Seq<u128> {
        if self.index == self.dealer && step == Step::Sharing {
            self.result.results_spec().update(5, elapsed_ms)
        } else if step == Step::Reconstruct {
            self.result.results_spec().update(6, elapsed_ms)
        } else {
            self.result.results_spec()
        }
    }

    /// Emits this round's OUTPUT message at most once: the first call
    /// stamps the phase's total timing, marks the node done, empties
    /// the result vector into the message, and hands the message
    /// back; every later call leaves the node unchanged and hands
    /// back nothing.
    pub fn output(&mut self, step: Step, code: ErrorCode, elapsed_ms: u128) -> (r: Option<
        Vec<u8>,
    >)
        requires
            old(self).wf(),
        ensures
            final(self).wf(),
            old(self).im_done ==> r is None && *final(self) == *old(self),
            !old(self).im_done ==> {
                &&& final(self).im_done
                &&& r matches Some(msg) && msg@.len() == 1 + RESULT_FIELDS_SIZE && msg@[0]
                    == InterfaceCode::OUTPUT.as_byte() && msg@[1] == code.as_byte() && msg@ =~=
                    seq![InterfaceCode::OUTPUT.as_byte(), code.as_byte()]
                    + crate::config_treatment::result_fields::fields_bytes(
                    old(self).stamped_results(step, elapsed_ms),
                )
                &&& forall|i: int| 0 <= i < 9 ==> final(self).result.results_spec()[i] == 0
                &&& final(self).result.code_spec() == crate::ErrorCode::OK
                &&& final(self).shares == old(self).shares
                &&& final(self).reconstruct_share_set == old(self).reconstruct_share_set
                &&& final(self).step == old(self).step
                &&& final(self).stop == old(self).stop
                &&& final(self).index == old(self).index
                &&& final(self).t == old(self).t
                &&& final(self).n == old(self).n
            },
    {
        if self.im_done {
            return None;
        }
        if self.im_dealer() && step == Step::Sharing {
            self.result.set(TypeResultField::Total, elapsed_ms);
        } else if step == Step::Reconstruct {
            self.result.set(TypeResultField::Reconstruction, elapsed_ms);
        }
        self.im_done = true;
        let extracted = self.result.extract();
        let mut msg: Vec<u8> = Vec::new();
        msg.push(InterfaceCode::OUTPUT.to_u8());
        let mut body = extracted.to_bytes(code);
        msg.append(&mut body);
        Some(msg)
    }

    /// Handles STOP: halts reconstruction forwarding and emits the
    /// Reconstruct OUTPUT, unless one was already emitted.
    pub fn stop_reconstruct(&mut self, elapsed_ms: u128) -> (r: Option<Vec<u8>>)
        requires
            old(self).wf(),
        ensures
            final(self).wf(),
            final(self).stop,
            old(self).im_done ==> r is None,
            !old(self).im_done ==> final(self).im_done && r is Some,
    {
        self.stop = true;
        self.output(Step::Reconstruct, ErrorCode::OK, elapsed_ms)
    }

    /// Handles a peer's NEWSHARE during reconstruction: a share for a
    /// party not yet in the table is verified against the installed
    /// commitment and stored; a repeated share is a no-op. The flag
    /// tells whether the table just passed 2t entries, so that the
    /// Reconstruct OUTPUT is owed.
    pub fn new_share(&mut self, i: u16, share: Share, proof: Proof) -> (r: bool)
        requires
            old(self).wf(),
            i < u16::MAX,
            !old(self).im_done ==> old(self).current_set().comm is Some,
        ensures
            final(self).wf(),
            old(self).im_done ==> *final(self) == *old(self) && !r,
            !old(self).im_done && old(self).current_set().contains_spec(i as int) ==> *final(self) == *old(self) && !r,
            !old(self).im_done && !old(self).current_set().contains_spec(i as int) && !crate::crypto::kzg_accepts(
                old(self).current_set().comm.unwrap().vkey@,
                old(self).current_set().comm.unwrap().comm@,
                (i + 1) as u16,
                share@,
                proof@,
            ) ==> *final(self) == *old(self) && !r,
            !old(self).im_done && !old(self).current_set().contains_spec(i as int)
                && crate::crypto::kzg_accepts(
                old(self).current_set().comm.unwrap().vkey@,
                old(self).current_set().comm.unwrap().comm@,
                (i + 1) as u16,
                share@,
                proof@,
            ) ==> final(self).current_set().set@[i as int] == Some((share, proof)) && r == (
            num_filled(final(self).current_set().set@) > 2 * old(self).t),
    {
        if self.im_done {
            return false;
        }
        let accept = {
            let set = self.get_current_set();
            if set.contains(i) {
                false
            } else {
                crate::crypto::verify(set.get_comm(), i + 1, &share, &proof)
            }
        };
        if !accept {
            return false;
        }
        self.save_share(i, share, proof);
        let filled = self.get_current_set().len();
        filled > 2 * (self.t as usize)
    }

    /// Handles RECONSTRUCT: clones the sharing table into the
    /// reconstruction table, rewinds the round flags, and builds the
    /// NEWSHARE message to broadcast; a sleeper builds none.
    pub fn reconstruct(&mut self) -> (r: Option<Vec<u8>>)
        requires
            old(self).wf(),
            old(self).byz_comp == ByzComp::Honnest ==> old(self).shares.contains_spec(
                old(self).index as int,
            ),
        ensures
            final(self).wf(),
            final(self).step == Step::Reconstruct,
            !final(self).im_done,
            !final(self).stop,
            final(self).shares == old(self).shares,
            final(self).result == old(self).result,
            final(self).index == old(self).index && final(self).t == old(self).t && final(self).n == old(self).n && final(self).network == old(self).network,
            final(self).reconstruct_share_set.set@.len() == old(self).shares.set@.len(),
            forall|j: int|
                0 <= j < old(self).shares.set@.len() ==> entry_eq(
                    final(self).reconstruct_share_set.set@[j],
                    old(self).shares.set@[j],
                ),
            old(self).byz_comp == ByzComp::Sleeper ==> r is None,
            old(self).byz_comp == ByzComp::Honnest ==> (r matches Some(msg)
                && (old(self).shares.set@[old(self).index as int] matches Some(e) && msg@ =~=
                seq![CommandCode::NEWSHARE.as_byte()] + bytes_le::le_bytes(
                old(self).index as nat,
                2,
            ) + e.0@ + e.1@)),
    {
        self.step = Step::Reconstruct;
        self.reconstruct_share_set = self.shares.duplicate();
        self.im_done = false;
        self.stop = false;
        if self.byz_comp == ByzComp::Sleeper {
            return None;
        }
        let mut msg: Vec<u8> = Vec::new();
        msg.push(CommandCode::NEWSHARE.to_u8());
        let mut idx = bytes_le::le_write(self.index as u128, 2);
        msg.append(&mut idx);
        let share = Share { bytes: crate::copy_bytes(&self.my_share().bytes) };
        let proof = Proof { bytes: crate::copy_bytes(&self.my_proof().bytes) };
        share.write(&mut msg);
        proof.write(&mut msg);
        Some(msg)
    }
}

} // verus!
