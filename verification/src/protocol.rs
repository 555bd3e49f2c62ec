//! The AVSS round itself: the dealer's bookkeeping from SHARE to
//! REST, the share-holder's acceptance rules, and the REST
//! verification that decides a round's outcome.
use vstd::prelude::*;
use crate::{ByzComp, CommandCode, ErrorCode, Step};
use crate::bytes_le;
use crate::config_treatment::result_fields::TypeResultField;
use crate::crypto::{kzg_accepts, Batch, Commitment, Proof, Share, Sign};
use crate::node::{ExternNode, Node};

verus! {

/// Whether a signature is valid under a party's stored DER key: the
/// key is long enough and its raw part accepts the signature.
pub open spec fn sig_valid(en: ExternNode, s: Seq<u8>) -> bool {
    en.p_key@.len() > 12 && crate::crypto::ed_accepts(en.p_key@.skip(12), s)
}

/// True when some signature entry carries party index `k`.
pub open spec fn sig_index_in(sigs: Seq<(u16, Sign)>, k: int) -> bool {
    exists|j: int| 0 <= j < sigs.len() && (#[trigger] sigs[j]).0 == k
}

/// True when some batch entry carries party index `k`.
pub open spec fn batch_index_in(batch: Seq<Batch>, k: int) -> bool {
    exists|j: int| 0 <= j < batch.len() && (#[trigger] batch[j]).0 == k
}

/// The REST signature list is acceptable: exactly 2t+1 entries, each
/// in range and valid under its party's key, no party twice.
pub open spec fn sigs_ok(n: int, t: int, network: Seq<ExternNode>, sigs: Seq<(u16, Sign)>) -> bool {
    &&& sigs.len() == 2 * t + 1
    &&& forall|j: int|
        0 <= j < sigs.len() ==> (#[trigger] sigs[j]).0 < n && sig_valid(
            network[sigs[j].0 as int],
            sigs[j].1@,
        )
    &&& forall|j1: int, j2: int|
        0 <= j1 < j2 < sigs.len() ==> (#[trigger] sigs[j1]).0 != (#[trigger] sigs[j2]).0
}

/// Every batch entry names a party of the round.
pub open spec fn batch_in_range(n: int, batch: Seq<Batch>) -> bool {
    forall|j: int| 0 <= j < batch.len() ==> (#[trigger] batch[j]).0 < n
}

/// Every batch entry's share and proof verify against the commitment.
pub open spec fn batch_ok(comm: Commitment, batch: Seq<Batch>) -> bool {
    forall|j: int|
        0 <= j < batch.len() ==> kzg_accepts(
            comm.vkey@,
            comm.comm@,
            ((#[trigger] batch[j]).0 + 1) as u16,
            batch[j].2@,
            batch[j].1@,
        )
}

/// No party appears both among the signatures and the batch, nor
/// twice in the batch.
pub open spec fn no_overlap(sigs: Seq<(u16, Sign)>, batch: Seq<Batch>) -> bool {
    &&& forall|j: int| 0 <= j < batch.len() ==> !sig_index_in(sigs, (#[trigger] batch[j]).0 as int)
    &&& forall|j1: int, j2: int|
        0 <= j1 < j2 < batch.len() ==> (#[trigger] batch[j1]).0 != (#[trigger] batch[j2]).0
}

/// Every party of the round appears among the signatures or the batch.
pub open spec fn coverage(n: int, sigs: Seq<(u16, Sign)>, batch: Seq<Batch>) -> bool {
    forall|k: int| 0 <= k < n ==> sig_index_in(sigs, k) || batch_index_in(batch, k)
}

/// A REST broadcast that the protocol accepts outright.
pub open spec fn rest_valid(
    n: int,
    t: int,
    network: Seq<ExternNode>,
    comm: Commitment,
    sigs: Seq<(u16, Sign)>,
    batch: Seq<Batch>,
) -> bool {
    &&& sigs_ok(n, t, network, sigs)
    &&& batch_in_range(n, batch)
    &&& batch_ok(comm, batch)
    &&& no_overlap(sigs, batch)
    &&& coverage(n, sigs, batch)
}

/// An accepted REST partitions the parties: every party is covered by
/// the signatures or the batch, and never by both.
pub proof fn lemma_signature_coverage(
    n: int,
    t: int,
    network: Seq<ExternNode>,
    comm: Commitment,
    sigs: Seq<(u16, Sign)>,
    batch: Seq<Batch>,
)
    requires
        rest_valid(n, t, network, comm, sigs, batch),
    ensures
        forall|k: int|
            0 <= k < n ==> (sig_index_in(sigs, k) || batch_index_in(batch, k)) && !(sig_index_in(
                sigs,
                k,
            ) && batch_index_in(batch, k)),
{
    assert forall|k: int|
        0 <= k < n implies (sig_index_in(sigs, k) || batch_index_in(batch, k)) && !(sig_index_in(
        sigs,
        k,
    ) && batch_index_in(batch, k)) by {
        if sig_index_in(sigs, k) && batch_index_in(batch, k) {
            let j = choose|j: int| 0 <= j < batch.len() && (#[trigger] batch[j]).0 == k;
            assert(!sig_index_in(sigs, (batch[j]).0 as int));
        }
    }
}

/// Correctness of sharing, for the batch path: under an accepted
/// REST, every party is reached, and a party fed from the batch gets
/// a share and proof that the KZG check accepts at its point. (A
/// party that signed already held its own accepted share, per the
/// SHARE handler's contract.)
pub proof fn lemma_sharing_correctness(
    n: int,
    t: int,
    network: Seq<ExternNode>,
    comm: Commitment,
    sigs: Seq<(u16, Sign)>,
    batch: Seq<Batch>,
)
    requires
        rest_valid(n, t, network, comm, sigs, batch),
    ensures
        forall|k: int|
            0 <= k < n ==> sig_index_in(sigs, k) || (exists|j: int|
                0 <= j < batch.len() && (#[trigger] batch[j]).0 == k && kzg_accepts(
                    comm.vkey@,
                    comm.comm@,
                    ((batch[j]).0 + 1) as u16,
                    batch[j].2@,
                    batch[j].1@,
                )),
{
    assert forall|k: int|
        0 <= k < n && !sig_index_in(sigs, k) implies (exists|j: int|
        0 <= j < batch.len() && (#[trigger] batch[j]).0 == k && kzg_accepts(
            comm.vkey@,
            comm.comm@,
            ((batch[j]).0 + 1) as u16,
            batch[j].2@,
            batch[j].1@,
        )) by {
        let j = choose|j: int| 0 <= j < batch.len() && (#[trigger] batch[j]).0 == k;
        assert(kzg_accepts(
            comm.vkey@,
            comm.comm@,
            ((batch[j]).0 + 1) as u16,
            batch[j].2@,
            batch[j].1@,
        ));
    }
}

/// Handles a SHARE at a share-holder. A sleeper drops it without a
/// trace. An honest party that accepts the degree bound and its own
/// opening signs the fixed tag, stores its share, stamps its timing,
/// and hands the ACK for the dealer back; otherwise it only stamps
/// the timing.
pub fn first_receiv(
    node: &mut Node,
    comm: Commitment,
    share: Share,
    proof: Proof,
    elapsed_ms: u128,
) -> (r: Option<Vec<u8>>)
    requires
        old(node).wf(),
        old(node).index < u16::MAX,
    ensures
        final(node).wf(),
        old(node).byz_comp == ByzComp::Sleeper ==> r is None && *final(node) == *old(node),
        old(node).byz_comp == ByzComp::Honnest ==> {
            let ok = comm.degree_bound == 2 * old(node).t as u32 && kzg_accepts(
                comm.vkey@,
                comm.comm@,
                (old(node).index + 1) as u16,
                share@,
                proof@,
            );
            &&& (!ok ==> r is None && final(node).shares == old(node).shares && final(node).reconstruct_share_set == old(node).reconstruct_share_set)
            &&& (ok ==> (r is Some <==> crate::crypto::ed_parses(old(node).key_pkcs8@)))
            &&& (ok && !crate::crypto::ed_parses(old(node).key_pkcs8@) ==> final(node).shares
                == old(node).shares && final(node).reconstruct_share_set == old(node).reconstruct_share_set)
            &&& (ok && crate::crypto::ed_parses(old(node).key_pkcs8@) ==> final(node).current_set().set@[old(node).index as int] == Some((share, proof)) && (r matches
                Some(msg) && msg@.len() >= 7 && msg@[0] == CommandCode::ACK.as_byte()
                && msg@.subrange(1, 3) == bytes_le::le_bytes(old(node).index as nat, 2)
                && msg@.subrange(3, 7) == bytes_le::le_bytes(
                crate::crypto::ed_sig_of(old(node).key_pkcs8@).len(),
                4,
            ) && msg@.skip(7) == crate::crypto::ed_sig_of(old(node).key_pkcs8@)))
            &&& final(node).result.results_spec() == old(node).result.results_spec().update(
                2,
                elapsed_ms,
            )
            &&& final(node).result.code_spec() == old(node).result.code_spec()
            &&& final(node).im_done == old(node).im_done
            &&& final(node).step == old(node).step
            &&& final(node).network == old(node).network
            &&& final(node).t == old(node).t && final(node).n == old(node).n && final(node).index
                == old(node).index && final(node).byz_comp == old(node).byz_comp
            &&& final(node).im_setup == old(node).im_setup && final(node).stop == old(node).stop
            &&& final(node).key_pkcs8 == old(node).key_pkcs8 && final(node).key_pub_der == old(node).key_pub_der && final(node).dealer == old(node).dealer
        },
{
    if node.byz_comp == ByzComp::Sleeper {
        return None;
    }
    let deg_ok = crate::crypto::deg_check(&comm, 2 * (node.t as usize));
    let mut reply: Option<Vec<u8>> = None;
    if deg_ok && crate::crypto::verify(&comm, node.index + 1, &share, &proof) {
        match crate::crypto::sign_tag(&node.key_pkcs8) {
            Some(sig) => {
                let mut msg: Vec<u8> = Vec::new();
                msg.push(CommandCode::ACK.to_u8());
                let mut idx = bytes_le::le_write(node.index as u128, 2);
                msg.append(&mut idx);
                let mut slen = bytes_le::le_write(sig.len() as u128, 4);
                msg.append(&mut slen);
                let ghost sigview = sig@;
                let mut sigbytes = sig;
                msg.append(&mut sigbytes);
                let i = node.index;
                node.save_share(i, share, proof);
                proof {
                    assert(msg@.subrange(1, 3) =~= bytes_le::le_bytes(
                        old(node).index as nat,
                        2,
                    ));
                    assert(msg@.subrange(3, 7) =~= bytes_le::le_bytes(sigview.len(), 4));
                    assert(msg@.skip(7) =~= sigview);
                }
                reply = Some(msg);
            },
            None => {},
        }
    }
    node.result.set(TypeResultField::FirstReceiv, elapsed_ms);
    reply
}

/// The result slots a Sharing OUTPUT of this round carries: the
/// Verify slot holds the verification time only when the round was
/// accepted, and the dealer's OUTPUT stamps the round total.
pub open spec fn sharing_output_fields(
    n: Node,
    code: ErrorCode,
    verify_ms: u128,
    total_ms: u128,
) -> Seq<u128> {
    let base = if code == ErrorCode::OK {
        n.result.results_spec().update(0, verify_ms)
    } else {
        n.result.results_spec()
    };
    if n.index == n.dealer {
        base.update(5, total_ms)
    } else {
        base
    }
}

/// Handles a REST at any party: checks the signature list, the batch
/// proofs, and the coverage of all parties, stores the batch shares,
/// attaches the commitment, and emits this round's Sharing OUTPUT
/// with the round's outcome. The outcome is OK exactly when the
/// broadcast is valid; each rejection names the first rule broken, in
/// the order signatures, batch range, batch proofs, overlap, coverage.
pub fn verify_and_output(
    node: &mut Node,
    comm: Commitment,
    signatures: Vec<(u16, Sign)>,
    missing_shares: Vec<Batch>,
    verify_elapsed_ms: u128,
    total_elapsed_ms: u128,
) -> (r: (ErrorCode, Option<Vec<u8>>))
    requires
        old(node).wf(),
        old(node).network@.len() >= old(node).n,
    ensures
        final(node).wf(),
        !old(node).im_done ==> final(node).im_done && r.1 is Some,
        old(node).im_done ==> r.1 is None,
        ({
            let n = old(node).n as int;
            let t = old(node).t as int;
            let net = old(node).network@;
            &&& (r.0 == ErrorCode::UnvalidSigns <==> !sigs_ok(n, t, net, signatures@))
            &&& (r.0 == ErrorCode::UnvalidShares <==> sigs_ok(n, t, net, signatures@)
                && batch_in_range(n, missing_shares@) && !batch_ok(comm, missing_shares@))
            &&& (r.0 == ErrorCode::IncoherentBatch <==> sigs_ok(n, t, net, signatures@) && (
            !batch_in_range(n, missing_shares@) || (batch_ok(comm, missing_shares@) && !no_overlap(
                signatures@,
                missing_shares@,
            ))))
            &&& (r.0 == ErrorCode::MissingShare <==> sigs_ok(n, t, net, signatures@)
                && batch_in_range(n, missing_shares@) && batch_ok(comm, missing_shares@)
                && no_overlap(signatures@, missing_shares@) && !coverage(
                n,
                signatures@,
                missing_shares@,
            ))
            &&& (r.0 == ErrorCode::OK <==> rest_valid(
                n,
                t,
                net,
                comm,
                signatures@,
                missing_shares@,
            ))
        }),
        (r.0 == ErrorCode::UnvalidSigns || r.0 == ErrorCode::UnvalidShares) ==> final(node).shares == old(node).shares,
        old(node).step == Step::Sharing ==> final(node).reconstruct_share_set == old(node).reconstruct_share_set,
        !old(node).im_done ==> (r.1 matches Some(m) && m@ =~= seq![
            crate::InterfaceCode::OUTPUT.as_byte(),
            r.0.as_byte(),
        ] + crate::config_treatment::result_fields::fields_bytes(
            sharing_output_fields(*old(node), r.0, verify_elapsed_ms, total_elapsed_ms),
        )),
        r.0 == ErrorCode::OK && old(node).step == Step::Sharing ==> final(node).shares.comm
            == Some(comm) && (forall|j: int|
            0 <= j < missing_shares@.len() ==> crate::node::entry_eq(
                final(node).shares.set@[(#[trigger] missing_shares@[j]).0 as int],
                Some((missing_shares@[j].2, missing_shares@[j].1)),
            )) && (forall|q: int|
            0 <= q < final(node).shares.set@.len() && !batch_index_in(missing_shares@, q)
                ==> final(node).shares.set@[q] == (if q < old(node).shares.set@.len() {
                old(node).shares.set@[q]
            } else {
                None::<(Share, Proof)>
            })),
{
    let n = node.n as usize;
    let t = node.t;
    let mut seen: Vec<bool> = Vec::new();
    let mut k: usize = 0;
    while k < n
        invariant
            k <= n,
            seen@.len() == k,
            forall|q: int| 0 <= q < k ==> !seen@[q],
        decreases n - k,
    {
        seen.push(false);
        k = k + 1;
    }
    if signatures.len() != 2 * (t as usize) + 1 {
        let out = node.output(Step::Sharing, ErrorCode::UnvalidSigns, total_elapsed_ms);
        return (ErrorCode::UnvalidSigns, out);
    }
    let slen = signatures.len();
    let mut j: usize = 0;
    while j < slen
        invariant
            j <= slen,
            slen == signatures@.len(),
            *node == *old(node),
            n == old(node).n as int,
            seen@.len() == n,
            forall|q: int| 0 <= q < n ==> seen@[q] == sig_index_in(signatures@.take(j as int), q),
            forall|idx: int|
                0 <= idx < j ==> (#[trigger] signatures@[idx]).0 < n && sig_valid(
                    old(node).network@[signatures@[idx].0 as int],
                    signatures@[idx].1@,
                ),
            forall|j1: int, j2: int|
                0 <= j1 < j2 < j ==> (#[trigger] signatures@[j1]).0 != (
                #[trigger] signatures@[j2]).0,
        decreases slen - j,
    {
        let i = signatures[j].0;
        let bad = (i as usize) >= n || !crate::crypto::is_valid_sign(
            &node.network[i as usize].p_key,
            &signatures[j].1,
        ) || seen[i as usize];
        if bad {
            proof {
                if (i as int) < n && sig_valid(
                    old(node).network@[i as int],
                    signatures@[j as int].1@,
                ) {
                    assert(seen@[i as int]);
                    let w = choose|w: int|
                        0 <= w < j && (#[trigger] signatures@.take(j as int)[w]).0 == i as int;
                    assert((signatures@[w]).0 == (signatures@[j as int]).0);
                }
                assert(!sigs_ok(
                    old(node).n as int,
                    old(node).t as int,
                    old(node).network@,
                    signatures@,
                ));
            }
            let out = node.output(Step::Sharing, ErrorCode::UnvalidSigns, total_elapsed_ms);
            return (ErrorCode::UnvalidSigns, out);
        }
        proof {
            assert(!sig_index_in(signatures@.take(j as int), i as int));
            assert forall|j1: int| 0 <= j1 < j implies (#[trigger] signatures@[j1]).0 != i by {
                if (signatures@[j1]).0 == i {
                    assert((signatures@.take(j as int)[j1]).0 == i as int);
                }
            }
        }
        seen.set(i as usize, true);
        proof {
            assert forall|q: int|
                0 <= q < n implies seen@[q] == sig_index_in(
                signatures@.take(j + 1),
                q,
            ) by {
                if q == i as int {
                    assert((signatures@.take(j + 1)[j as int]).0 == q);
                } else {
                    if sig_index_in(signatures@.take(j + 1), q) {
                        let w = choose|w: int|
                            0 <= w <= j && (#[trigger] signatures@.take(j + 1)[w]).0 == q;
                        assert((signatures@.take(j as int)[w]).0 == q);
                    }
                    if sig_index_in(signatures@.take(j as int), q) {
                        let w = choose|w: int|
                            0 <= w < j && (#[trigger] signatures@.take(j as int)[w]).0 == q;
                        assert((signatures@.take(j + 1)[w]).0 == q);
                    }
                }
            }
        }
        j = j + 1;
    }
    proof {
        assert(signatures@.take(slen as int) =~= signatures@);
        assert(sigs_ok(old(node).n as int, old(node).t as int, old(node).network@, signatures@));
    }
    let mlen = missing_shares.len();
    let mut j: usize = 0;
    while j < mlen
        invariant
            j <= mlen,
            mlen == missing_shares@.len(),
            *node == *old(node),
            n == old(node).n as int,
            forall|idx: int| 0 <= idx < j ==> (#[trigger] missing_shares@[idx]).0 < n,
        decreases mlen - j,
    {
        if (missing_shares[j].0 as usize) >= n {
            proof {
                assert(!batch_in_range(old(node).n as int, missing_shares@));
            }
            let out = node.output(Step::Sharing, ErrorCode::IncoherentBatch, total_elapsed_ms);
            return (ErrorCode::IncoherentBatch, out);
        }
        j = j + 1;
    }
    proof {
        assert(batch_in_range(old(node).n as int, missing_shares@));
    }
    if !crate::crypto::batch_verify(&comm, &missing_shares) {
        let out = node.output(Step::Sharing, ErrorCode::UnvalidShares, total_elapsed_ms);
        return (ErrorCode::UnvalidShares, out);
    }
    let mut j: usize = 0;
    while j < mlen
        invariant
            j <= mlen,
            mlen == missing_shares@.len(),
            n == old(node).n as int,
            node.wf(),
            node.im_done == old(node).im_done,
            node.step == old(node).step,
            node.n == old(node).n,
            node.t == old(node).t,
            node.index == old(node).index,
            node.network == old(node).network,
            node.result == old(node).result,
            node.dealer == old(node).dealer,
            seen@.len() == n,
            batch_in_range(n as int, missing_shares@),
            forall|q: int|
                0 <= q < n ==> seen@[q] == (sig_index_in(signatures@, q) || batch_index_in(
                    missing_shares@.take(j as int),
                    q,
                )),
            forall|idx: int|
                0 <= idx < j ==> !sig_index_in(signatures@, (
                #[trigger] missing_shares@[idx]).0 as int),
            forall|j1: int, j2: int|
                0 <= j1 < j2 < j ==> (#[trigger] missing_shares@[j1]).0 != (
                #[trigger] missing_shares@[j2]).0,
            old(node).step == Step::Sharing ==> node.reconstruct_share_set == old(node).reconstruct_share_set && node.shares.comm == old(node).shares.comm && (forall|
                idx: int,
            |
                0 <= idx < j ==> crate::node::entry_eq(
                    node.shares.set@[(#[trigger] missing_shares@[idx]).0 as int],
                    Some((missing_shares@[idx].2, missing_shares@[idx].1)),
                ) && (missing_shares@[idx]).0 < node.shares.set@.len()),
            old(node).step == Step::Sharing ==> node.shares.set@.len() >= old(node).shares.set@.len(),
            old(node).step == Step::Sharing ==> (forall|q: int|
                0 <= q < node.shares.set@.len() && !batch_index_in(
                    missing_shares@.take(j as int),
                    q,
                ) ==> node.shares.set@[q] == (if q < old(node).shares.set@.len() {
                    old(node).shares.set@[q]
                } else {
                    None::<(Share, Proof)>
                })),
            old(node).step == Step::Reconstruct ==> node.shares == old(node).shares,
        decreases mlen - j,
    {
        let i = missing_shares[j].0;
        if seen[i as usize] {
            let out = node.output(Step::Sharing, ErrorCode::IncoherentBatch, total_elapsed_ms);
            proof {
                if !sig_index_in(signatures@, i as int) {
                    let w = choose|w: int|
                        0 <= w < j && (#[trigger] missing_shares@.take(j as int)[w]).0 == i as int;
                    assert((missing_shares@[w]).0 == (missing_shares@[j as int]).0);
                }
            }
            return (ErrorCode::IncoherentBatch, out);
        }
        proof {
            assert(!batch_index_in(missing_shares@.take(j as int), i as int));
            assert forall|j1: int| 0 <= j1 < j implies (#[trigger] missing_shares@[j1]).0
                != i by {
                if (missing_shares@[j1]).0 == i {
                    assert((missing_shares@.take(j as int)[j1]).0 == i as int);
                }
            }
        }
        seen.set(i as usize, true);
        let share = Share { bytes: crate::copy_bytes(&missing_shares[j].2.bytes) };
        let pr = Proof { bytes: crate::copy_bytes(&missing_shares[j].1.bytes) };
        let ghost presave = *node;
        node.save_share(i, share, pr);
        proof {
            if old(node).step == Step::Sharing {
                assert(crate::node::entry_eq(
                    node.shares.set@[i as int],
                    Some((missing_shares@[j as int].2, missing_shares@[j as int].1)),
                ));
                assert forall|idx: int| 0 <= idx < j implies (crate::node::entry_eq(
                    node.shares.set@[(#[trigger] missing_shares@[idx]).0 as int],
                    Some((missing_shares@[idx].2, missing_shares@[idx].1)),
                ) && (missing_shares@[idx]).0 < node.shares.set@.len()) by {
                    assert((missing_shares@[idx]).0 != i);
                    assert(node.shares.set@[(missing_shares@[idx]).0 as int]
                        == presave.shares.set@[(missing_shares@[idx]).0 as int]);
                }
                assert forall|q: int|
                    0 <= q < node.shares.set@.len() && !batch_index_in(
                        missing_shares@.take(j + 1),
                        q,
                    ) implies node.shares.set@[q] == (if q < old(node).shares.set@.len() {
                    old(node).shares.set@[q]
                } else {
                    None::<(Share, Proof)>
                }) by {
                    assert(q != i) by {
                        if q == i {
                            assert((missing_shares@.take(j + 1)[j as int]).0 == q);
                        }
                    }
                    assert(!batch_index_in(missing_shares@.take(j as int), q)) by {
                        if batch_index_in(missing_shares@.take(j as int), q) {
                            let w = choose|w: int|
                                0 <= w < j && (#[trigger] missing_shares@.take(
                                    j as int,
                                )[w]).0 == q;
                            assert((missing_shares@.take(j + 1)[w]).0 == q);
                        }
                    }
                    if q < presave.shares.set@.len() {
                        assert(presave.shares.set@[q] == (if q < old(node).shares.set@.len() {
                            old(node).shares.set@[q]
                        } else {
                            None::<(Share, Proof)>
                        }));
                        assert(node.shares.set@[q] == presave.shares.set@[q]);
                    }
                }
            }
            assert forall|q: int|
                0 <= q < n implies seen@[q] == (sig_index_in(signatures@, q) || batch_index_in(
                missing_shares@.take(j + 1),
                q,
            )) by {
                if q == i as int {
                    assert((missing_shares@.take(j + 1)[j as int]).0 == q);
                } else {
                    if batch_index_in(missing_shares@.take(j + 1), q) {
                        let w = choose|w: int|
                            0 <= w <= j && (#[trigger] missing_shares@.take(j + 1)[w]).0 == q;
                        assert((missing_shares@.take(j as int)[w]).0 == q);
                    }
                    if batch_index_in(missing_shares@.take(j as int), q) {
                        let w = choose|w: int|
                            0 <= w < j && (#[trigger] missing_shares@.take(j as int)[w]).0 == q;
                        assert((missing_shares@.take(j + 1)[w]).0 == q);
                    }
                }
            }
        }
        j = j + 1;
    }
    proof {
        assert(missing_shares@.take(mlen as int) =~= missing_shares@);
        assert(no_overlap(signatures@, missing_shares@));
    }
    let ghost pre_cover = *node;
    let mut k: usize = 0;
    while k < n
        invariant
            k <= n,
            n == old(node).n as int,
            seen@.len() == n,
            *node == pre_cover,
            node.wf(),
            node.im_done == old(node).im_done,
            forall|q: int|
                0 <= q < n ==> seen@[q] == (sig_index_in(signatures@, q) || batch_index_in(
                    missing_shares@,
                    q,
                )),
            forall|q: int| 0 <= q < k ==> seen@[q],
        decreases n - k,
    {
        if !seen[k] {
            proof {
                assert(!coverage(old(node).n as int, signatures@, missing_shares@));
            }
            let out = node.output(Step::Sharing, ErrorCode::MissingShare, total_elapsed_ms);
            return (ErrorCode::MissingShare, out);
        }
        k = k + 1;
    }
    proof {
        assert(coverage(old(node).n as int, signatures@, missing_shares@));
    }
    let set = node.get_current_set_mut();
    set.set_comm(comm);
    node.result.set(TypeResultField::Verify, verify_elapsed_ms);
    let out = node.output(Step::Sharing, ErrorCode::OK, total_elapsed_ms);
    (ErrorCode::OK, out)
}

/// Byte encoding of a REST signature list: each entry the party index
/// and its length-prefixed signature.
pub open spec fn sigs_wire(s: Seq<(u16, Sign)>) -> Seq<u8>
    decreases s.len(),
{
    if s.len() == 0 {
        Seq::empty()
    } else {
        sigs_wire(s.drop_last()) + bytes_le::le_bytes(s.last().0 as nat, 2) + bytes_le::le_bytes(
            s.last().1@.len(),
            4,
        ) + s.last().1@
    }
}

/// Byte encoding of the pending entries among the first `n` slots:
/// each the party index, the proof, and the share.
pub open spec fn missing_wire(p: Seq<Option<(Proof, Share)>>, n: int) -> Seq<u8>
    decreases n,
{
    if n <= 0 {
        Seq::empty()
    } else {
        missing_wire(p, n - 1) + (match p[n - 1] {
            Some(e) => bytes_le::le_bytes((n - 1) as nat, 2) + e.0@ + e.1@,
            None => Seq::empty(),
        })
    }
}

/// How many of the first `n` slots still hold a pending entry.
pub open spec fn pending_count(p: Seq<Option<(Proof, Share)>>, n: int) -> nat
    decreases n,
{
    if n <= 0 {
        0
    } else {
        pending_count(p, n - 1) + (if p[n - 1] is Some {
            1nat
        } else {
            0nat
        })
    }
}

/// The dealer's bookkeeping between sending the SHARE messages and
/// broadcasting the REST: the commitment, which parties still owe an
/// acknowledgement, and the signatures collected so far.
pub struct DealerState {
    pub comm: Commitment,
    pub pending: Vec<Option<(Proof, Share)>>,
    pub signatures: Vec<(u16, Sign)>,
    pub t: u16,
    pub n: u16,
}

/// Opens the dealer's round: commits to a fresh polynomial holding the
/// secret and builds one SHARE message per party, each the command
/// byte, the party's proof, the commitment, and the party's share.
/// Every party starts out owing an acknowledgement.
pub fn dealer_start(t: u16, n: u16, secret: u128) -> (r: Option<(DealerState, Vec<Vec<u8>>)>)
    requires
        t <= 0x3fff,  // keeps 2t + 1 inside u16 arithmetic
    ensures
        t >= 1 ==> r is Some,
        r matches Some(p) ==> {
            &&& p.1@.len() == n
            &&& p.0.pending@.len() == n
            &&& p.0.signatures@.len() == 0
            &&& p.0.t == t && p.0.n == n
            &&& p.0.comm.degree_bound == 2 * t
            &&& p.0.comm.vkey@ == crate::crypto::vkey_of((2 * t) as u32)
            &&& p.0.comm.comm@ == crate::crypto::comm_of((2 * t) as u32, secret)
            &&& p.0.comm.vkey@.len() <= 400 && p.0.comm.comm@.len() <= 96
            &&& forall|i: int|
                0 <= i < n ==> ((#[trigger] p.0.pending@[i]) matches Some(e) && e.1@
                    == crate::crypto::share_of((2 * t) as u32, secret, (i + 1) as u16) && e.0@
                    == crate::crypto::proof_of((2 * t) as u32, secret, (i + 1) as u16)
                    && kzg_accepts(
                    p.0.comm.vkey@,
                    p.0.comm.comm@,
                    (i + 1) as u16,
                    e.1@,
                    e.0@,
                ) && p.1@[i]@ =~= seq![CommandCode::SHARE.as_byte()] + e.0@ + p.0.comm.wire()
                    + e.1@)
        },
{
    let (comm, shares) = match crate::crypto::compute_proof_and_shares(n, 2 * (t as u32), secret) {
        Some(x) => x,
        None => {
            proof {
                assert(t >= 1 ==> 2 * (t as u32) >= 2);
            }
            return None;
        },
    };
    let mut pending: Vec<Option<(Proof, Share)>> = Vec::new();
    let mut messages: Vec<Vec<u8>> = Vec::new();
    let len = shares.len();
    let mut i: usize = 0;
    while i < len
        invariant
            i <= len,
            len == shares@.len(),
            len == n,
            comm.degree_bound == 2 * t,
            comm.vkey@ == crate::crypto::vkey_of((2 * t) as u32),
            comm.comm@ == crate::crypto::comm_of((2 * t) as u32, secret),
            comm.vkey@.len() <= 400 && comm.comm@.len() <= 96,
            pending@.len() == i,
            messages@.len() == i,
            forall|q: int|
                0 <= q < len ==> (#[trigger] shares@[q]).1@ == crate::crypto::share_of(
                    (2 * t) as u32,
                    secret,
                    (q + 1) as u16,
                ) && shares@[q].0@ == crate::crypto::proof_of((2 * t) as u32, secret, (q
                    + 1) as u16),
            forall|q: int|
                0 <= q < len ==> kzg_accepts(
                    comm.vkey@,
                    comm.comm@,
                    (q + 1) as u16,
                    #[trigger] crate::crypto::share_of((2 * t) as u32, secret, (q + 1) as u16),
                    crate::crypto::proof_of((2 * t) as u32, secret, (q + 1) as u16),
                ),
            forall|q: int|
                0 <= q < i ==> ((#[trigger] pending@[q]) matches Some(e) && e.1@
                    == crate::crypto::share_of((2 * t) as u32, secret, (q + 1) as u16) && e.0@
                    == crate::crypto::proof_of((2 * t) as u32, secret, (q + 1) as u16)
                    && messages@[q]@ =~= seq![CommandCode::SHARE.as_byte()] + e.0@ + comm.wire()
                    + e.1@),
        decreases len - i,
    {
        let proof = Proof { bytes: crate::copy_bytes(&shares[i].0.bytes) };
        let share = Share { bytes: crate::copy_bytes(&shares[i].1.bytes) };
        let mut msg: Vec<u8> = Vec::new();
        msg.push(CommandCode::SHARE.to_u8());
        proof.write(&mut msg);
        comm.write(&mut msg);
        share.write(&mut msg);
        messages.push(msg);
        pending.push(Some((proof, share)));
        i = i + 1;
    }
    Some((DealerState { comm, pending, signatures: Vec::new(), t, n }, messages))
}

impl DealerState {
    /// Feeds one acknowledgement in. A signature that verifies under
    /// the sender's key settles that party's debt and joins the
    /// collected list; the flag says whether 2t+1 signatures are now
    /// in hand. Anything else is dropped.
    pub fn record_ack(&mut self, i: u16, sign: Sign, network: &Vec<ExternNode>) -> (done: bool)
        requires
            (i as int) < network@.len(),
            old(self).signatures@.len() < usize::MAX,
        ensures
            final(self).comm == old(self).comm,
            final(self).t == old(self).t && final(self).n == old(self).n,
            !sig_valid(network@[i as int], sign@) ==> *final(self) == *old(self) && !done,
            sig_valid(network@[i as int], sign@) ==> {
                &&& final(self).signatures@ == old(self).signatures@.push((i, sign))
                &&& final(self).pending@.len() == old(self).pending@.len()
                &&& ((i as int) < old(self).pending@.len() ==> final(self).pending@[i as int]
                    is None)
                &&& (forall|q: int|
                    0 <= q < old(self).pending@.len() && q != i ==> final(self).pending@[q] == old(
                        self,
                    ).pending@[q])
                &&& done == (old(self).signatures@.len() + 1 == 2 * old(self).t + 1)
            },
    {
        if !crate::crypto::is_valid_sign(&network[i as usize].p_key, &sign) {
            return false;
        }
        if (i as usize) < self.pending.len() {
            self.pending.set(i as usize, None);
        }
        self.signatures.push((i, sign));
        self.signatures.len() == 2 * (self.t as usize) + 1
    }

    /// Builds the REST broadcast: the command byte, the commitment,
    /// the counted signature list, then the counted batch of still
    /// pending (index, proof, share) entries in index order.
    pub fn assemble_rest(&self) -> (r: Vec<u8>)
        requires
            self.comm.vkey@.len() + self.comm.comm@.len() + 4 <= usize::MAX,
            self.signatures@.len() <= 0xffff_ffff,
            forall|j: int|
                0 <= j < self.signatures@.len() ==> (#[trigger] self.signatures@[j]).1@.len() + 4
                    <= 0xffff_ffff,
            pending_count(self.pending@, self.pending@.len() as int) <= 0xffff_ffff,
        ensures
            r@ =~= seq![CommandCode::REST.as_byte()] + self.comm.wire() + bytes_le::le_bytes(
                self.signatures@.len(),
                4,
            ) + sigs_wire(self.signatures@) + bytes_le::le_bytes(
                pending_count(self.pending@, self.pending@.len() as int),
                4,
            ) + missing_wire(self.pending@, self.pending@.len() as int),
    {
        let mut buf: Vec<u8> = Vec::new();
        buf.push(CommandCode::REST.to_u8());
        self.comm.write(&mut buf);
        let mut count = bytes_le::le_write(self.signatures.len() as u128, 4);
        buf.append(&mut count);
        let slen = self.signatures.len();
        let mut j: usize = 0;
        proof {
            assert(sigs_wire(self.signatures@.take(0)) =~= Seq::<u8>::empty());
        }
        while j < slen
            invariant
                j <= slen,
                slen == self.signatures@.len(),
                buf@ =~= seq![CommandCode::REST.as_byte()] + self.comm.wire()
                    + bytes_le::le_bytes(self.signatures@.len(), 4) + sigs_wire(
                    self.signatures@.take(j as int),
                ),
            decreases slen - j,
        {
            let mut idx = bytes_le::le_write(self.signatures[j].0 as u128, 2);
            buf.append(&mut idx);
            let mut sl = bytes_le::le_write(self.signatures[j].1.len() as u128, 4);
            buf.append(&mut sl);
            let mut sigb = crate::copy_bytes(&self.signatures[j].1);
            buf.append(&mut sigb);
            proof {
                assert(self.signatures@.take(j + 1).drop_last() =~= self.signatures@.take(
                    j as int,
                ));
                assert(self.signatures@.take(j + 1).last() == self.signatures@[j as int]);
            }
            j = j + 1;
        }
        proof {
            assert(self.signatures@.take(slen as int) =~= self.signatures@);
        }
        let mut missing_count: usize = 0;
        let plen = self.pending.len();
        let mut j: usize = 0;
        while j < plen
            invariant
                j <= plen,
                plen == self.pending@.len(),
                missing_count == pending_count(self.pending@, j as int),
                missing_count <= j,
            decreases plen - j,
        {
            if self.pending[j].is_some() {
                missing_count = missing_count + 1;
            }
            j = j + 1;
        }
        let mut count = bytes_le::le_write(missing_count as u128, 4);
        buf.append(&mut count);
        let ghost before_missing = buf@;
        let mut j: usize = 0;
        while j < plen
            invariant
                j <= plen,
                plen == self.pending@.len(),
                buf@ =~= before_missing + missing_wire(self.pending@, j as int),
            decreases plen - j,
        {
            match &self.pending[j] {
                Some(e) => {
                    let mut idx = bytes_le::le_write(j as u128, 2);
                    buf.append(&mut idx);
                    let mut pb = crate::copy_bytes(&e.0.bytes);
                    buf.append(&mut pb);
                    let mut sb = crate::copy_bytes(&e.1.bytes);
                    buf.append(&mut sb);
                },
                None => {},
            }
            j = j + 1;
        }
        buf
    }
}

/// True when a buffer opens with a parseable SHARE body: a proof, a
/// commitment, and a share, in that order.
pub open spec fn share_msg_parses(b: Seq<u8>) -> bool {
    match crate::crypto::proof_scan(b) {
        Some(pp) => {
            let rest = b.skip(pp.1 as int);
            Commitment::parses(rest) && (match crate::crypto::vkey_scan(rest) {
                Some(v) => match crate::crypto::comm_scan(rest.skip(v.1 as int)) {
                    Some(c) => crate::crypto::fe_scan(rest.skip((v.1 + c.1 + 4) as int)) is Some,
                    None => false,
                },
                None => false,
            })
        },
        None => false,
    }
}

/// Splits a SHARE message body into the proof, the commitment, and
/// the share, each read off the buffer in that order by its canonical
/// scan; anything that does not parse yields nothing.
pub fn parse_share_msg(bytes: &[u8]) -> (r: Option<(Proof, Commitment, Share)>)
    ensures
        r is Some <==> share_msg_parses(bytes@),
        r matches Some(p) ==> (crate::crypto::proof_scan(bytes@) matches Some(pp) && p.0@ == pp.0
            && (crate::crypto::vkey_scan(bytes@.skip(pp.1 as int)) matches Some(vv)
            && p.1.vkey@ == vv.0 && (crate::crypto::comm_scan(
            bytes@.skip(pp.1 as int).skip(vv.1 as int),
        ) matches Some(cc) && p.1.comm@ == cc.0 && p.1.degree_bound as nat == bytes_le::from_le(
            bytes@.skip(pp.1 as int).subrange((vv.1 + cc.1) as int, (vv.1 + cc.1 + 4) as int),
        ) && (crate::crypto::fe_scan(
            bytes@.skip(pp.1 as int).skip((vv.1 + cc.1 + 4) as int),
        ) matches Some(ss) && p.2@ == ss.0)))),
{
    let blen = bytes.len();
    let (proof, at1) = match Proof::read(bytes) {
        Some(p) => p,
        None => {
            return None;
        },
    };
    let rest = vstd::slice::slice_subrange(bytes, at1, blen);
    proof {
        assert(rest@ =~= bytes@.skip(at1 as int));
    }
    let (comm, at2) = match Commitment::read(rest) {
        Some(p) => p,
        None => {
            return None;
        },
    };
    let rest2 = vstd::slice::slice_subrange(rest, at2, blen - at1);
    proof {
        assert(rest2@ =~= rest@.skip(at2 as int));
    }
    let (share, _) = match Share::read(rest2) {
        Some(p) => p,
        None => {
            return None;
        },
    };
    Some((proof, comm, share))
}

/// What scanning `count` signature entries at offset `at` yields:
/// the (index, signature) list and the end offset, or nothing when
/// the buffer ends short.
pub open spec fn sigs_scan(b: Seq<u8>, count: nat, at: int) -> Option<(Seq<(u16, Seq<u8>)>, int)>
    decreases count,
{
    if count == 0 {
        Some((Seq::empty(), at))
    } else if at >= 0 && at + 6 <= b.len() {
        let i = bytes_le::from_le(b.subrange(at, at + 2));
        let sl = bytes_le::from_le(b.subrange(at + 2, at + 6));
        if at + 6 + sl <= b.len() {
            match sigs_scan(b, (count - 1) as nat, at + 6 + sl) {
                Some(p) => Some(
                    (seq![(i as u16, b.subrange(at + 6, at + 6 + sl))] + p.0, p.1),
                ),
                None => None,
            }
        } else {
            None
        }
    } else {
        None
    }
}

/// What scanning `count` batch entries at offset `at` yields: the
/// (index, proof, share) list and the end offset, or nothing when an
/// entry does not parse.
pub open spec fn batch_scan(b: Seq<u8>, count: nat, at: int) -> Option<
    (Seq<(u16, Seq<u8>, Seq<u8>)>, int),
>
    decreases count,
{
    if count == 0 {
        Some((Seq::empty(), at))
    } else if at >= 0 && at + 2 <= b.len() {
        let i = bytes_le::from_le(b.subrange(at, at + 2));
        match crate::crypto::proof_scan(b.skip(at + 2)) {
            Some(pp) => match crate::crypto::fe_scan(b.skip(at + 2 + pp.1)) {
                Some(ss) => match batch_scan(b, (count - 1) as nat, at + 2 + pp.1 + ss.1) {
                    Some(p) => Some((seq![(i as u16, pp.0, ss.0)] + p.0, p.1)),
                    None => None,
                },
                None => None,
            },
            None => None,
        }
    } else {
        None
    }
}

/// Reads `count` signature entries off `bytes` at offset `at`,
/// exactly as `sigs_scan` describes them.
fn read_sigs(bytes: &[u8], count: u32, at: usize) -> (r: Option<(Vec<(u16, Sign)>, usize)>)
    requires
        at <= bytes@.len(),
    ensures
        r is Some <==> sigs_scan(bytes@, count as nat, at as int) is Some,
        r matches Some(p) ==> (sigs_scan(bytes@, count as nat, at as int) matches Some(e)
            && p.0@.len() == e.0.len() && p.1 == e.1 && p.1 <= bytes@.len() && (forall|k: int|
            0 <= k < e.0.len() ==> (#[trigger] p.0@[k]).0 == e.0[k].0 && p.0@[k].1@
                == e.0[k].1)),
    decreases count,
{
    let blen = bytes.len();
    if count == 0 {
        return Some((Vec::new(), at));
    }
    if blen - at < 6 {
        return None;
    }
    let i = bytes_le::le_read(bytes, at, 2) as u16;
    proof {
        bytes_le::lemma_from_le_bound(bytes@.subrange(at as int, at + 2));
        bytes_le::lemma_from_le_bound(bytes@.subrange(at + 2, at + 6));
        bytes_le::lemma_pow256_values();
    }
    let sl = bytes_le::le_read(bytes, at + 2, 4) as usize;
    if blen - at - 6 < sl {
        return None;
    }
    let sig = vstd::slice::slice_to_vec(vstd::slice::slice_subrange(bytes, at + 6, at + 6 + sl));
    let rest = match read_sigs(bytes, count - 1, at + 6 + sl) {
        Some(p) => p,
        None => {
            return None;
        },
    };
    let mut out: Vec<(u16, Sign)> = Vec::new();
    out.push((i, sig));
    let mut tail = rest.0;
    out.append(&mut tail);
    proof {
        let e = sigs_scan(bytes@, count as nat, at as int).unwrap();
        assert forall|k: int| 0 <= k < e.0.len() implies (#[trigger] out@[k]).0 == e.0[k].0
            && out@[k].1@ == e.0[k].1 by {
            if k > 0 {
                let prev = sigs_scan(bytes@, (count - 1) as nat, at + 6 + sl as int).unwrap();
                assert(e.0[k] == prev.0[k - 1]);
            }
        }
    }
    Some((out, rest.1))
}

/// Reads `count` batch entries off `bytes` at offset `at`, exactly
/// as `batch_scan` describes them.
fn read_batch(bytes: &[u8], count: u32, at: usize) -> (r: Option<(Vec<Batch>, usize)>)
    requires
        at <= bytes@.len(),
    ensures
        r is Some <==> batch_scan(bytes@, count as nat, at as int) is Some,
        r matches Some(p) ==> (batch_scan(bytes@, count as nat, at as int) matches Some(e)
            && p.0@.len() == e.0.len() && p.1 == e.1 && p.1 <= bytes@.len() && (forall|k: int|
            0 <= k < e.0.len() ==> (#[trigger] p.0@[k]).0 == e.0[k].0 && p.0@[k].1@
                == e.0[k].1 && p.0@[k].2@ == e.0[k].2)),
    decreases count,
{
    let blen = bytes.len();
    if count == 0 {
        return Some((Vec::new(), at));
    }
    if blen - at < 2 {
        return None;
    }
    proof {
        bytes_le::lemma_from_le_bound(bytes@.subrange(at as int, at + 2));
        bytes_le::lemma_pow256_values();
    }
    let i = bytes_le::le_read(bytes, at, 2) as u16;
    let rest = vstd::slice::slice_subrange(bytes, at + 2, blen);
    proof {
        assert(rest@ =~= bytes@.skip(at + 2));
    }
    let (proof, pn) = match Proof::read(rest) {
        Some(p) => p,
        None => {
            return None;
        },
    };
    let rest2 = vstd::slice::slice_subrange(bytes, at + 2 + pn, blen);
    proof {
        assert(rest2@ =~= bytes@.skip(at + 2 + pn as int));
    }
    let (share, sn) = match Share::read(rest2) {
        Some(p) => p,
        None => {
            return None;
        },
    };
    let tail = match read_batch(bytes, count - 1, at + 2 + pn + sn) {
        Some(p) => p,
        None => {
            return None;
        },
    };
    let mut out: Vec<Batch> = Vec::new();
    out.push((i, proof, share));
    let mut rest_entries = tail.0;
    out.append(&mut rest_entries);
    proof {
        let e = batch_scan(bytes@, count as nat, at as int).unwrap();
        assert forall|k: int| 0 <= k < e.0.len() implies (#[trigger] out@[k]).0 == e.0[k].0
            && out@[k].1@ == e.0[k].1 && out@[k].2@ == e.0[k].2 by {
            if k > 0 {
                let prev = batch_scan(
                    bytes@,
                    (count - 1) as nat,
                    at + 2 + pn + sn as int,
                ).unwrap();
                assert(e.0[k] == prev.0[k - 1]);
            }
        }
    }
    Some((out, tail.1))
}

/// True when a buffer opens with a parseable REST body: a commitment,
/// a counted signature list, and a counted batch.
pub open spec fn rest_parses(b: Seq<u8>) -> bool {
    match crate::crypto::vkey_scan(b) {
        Some(v) => match crate::crypto::comm_scan(b.skip(v.1 as int)) {
            Some(c) => {
                let at0 = v.1 + c.1 + 4;
                at0 + 4 <= b.len() && (match sigs_scan(
                    b,
                    bytes_le::from_le(b.subrange(at0 as int, (at0 + 4) as int)),
                    (at0 + 4) as int,
                ) {
                    Some(sp) => sp.1 + 4 <= b.len() && batch_scan(
                        b,
                        bytes_le::from_le(b.subrange(sp.1, sp.1 + 4)),
                        sp.1 + 4,
                    ) is Some,
                    None => false,
                })
            },
            None => false,
        },
        None => false,
    }
}

/// Splits a REST message body into the commitment, the signature
/// list, and the missing batch, exactly as the scans describe them;
/// anything that does not parse yields nothing.
pub fn parse_rest(bytes: &[u8]) -> (r: Option<(Commitment, Vec<(u16, Sign)>, Vec<Batch>)>)
    ensures
        r is Some <==> rest_parses(bytes@),
        r matches Some(p) ==> (crate::crypto::vkey_scan(bytes@) matches Some(v) && p.0.vkey@
            == v.0 && (crate::crypto::comm_scan(bytes@.skip(v.1 as int)) matches Some(c)
            && p.0.comm@ == c.0 && (sigs_scan(
            bytes@,
            bytes_le::from_le(bytes@.subrange((v.1 + c.1 + 4) as int, (v.1 + c.1 + 8) as int)),
            (v.1 + c.1 + 8) as int,
        ) matches Some(sp) && p.1@.len() == sp.0.len() && (forall|k: int|
            0 <= k < sp.0.len() ==> (#[trigger] p.1@[k]).0 == sp.0[k].0 && p.1@[k].1@
                == sp.0[k].1) && (batch_scan(
            bytes@,
            bytes_le::from_le(bytes@.subrange(sp.1, sp.1 + 4)),
            sp.1 + 4,
        ) matches Some(bp) && p.2@.len() == bp.0.len() && (forall|k: int|
            0 <= k < bp.0.len() ==> (#[trigger] p.2@[k]).0 == bp.0[k].0 && p.2@[k].1@
                == bp.0[k].1 && p.2@[k].2@ == bp.0[k].2))))),
{
    let blen = bytes.len();
    let (comm, at0) = match Commitment::read(bytes) {
        Some(p) => p,
        None => {
            return None;
        },
    };
    if blen - at0 < 4 {
        return None;
    }
    proof {
        bytes_le::lemma_from_le_bound(bytes@.subrange(at0 as int, at0 + 4));
        bytes_le::lemma_pow256_values();
    }
    let nb_sign = bytes_le::le_read(bytes, at0, 4) as u32;
    let (signatures, at1) = match read_sigs(bytes, nb_sign, at0 + 4) {
        Some(p) => p,
        None => {
            return None;
        },
    };
    if blen - at1 < 4 {
        return None;
    }
    proof {
        bytes_le::lemma_from_le_bound(bytes@.subrange(at1 as int, at1 + 4));
        bytes_le::lemma_pow256_values();
    }
    let nb_share = bytes_le::le_read(bytes, at1, 4) as u32;
    let (missing, _) = match read_batch(bytes, nb_share, at1 + 4) {
        Some(p) => p,
        None => {
            return None;
        },
    };
    Some((comm, signatures, missing))
}

/// True when a buffer opens with a parseable ACK body: an index, a
/// signature length, and that many signature bytes.
pub open spec fn ack_parses(b: Seq<u8>) -> bool {
    b.len() >= 6 && 6 + bytes_le::from_le(b.subrange(2, 6)) <= b.len()
}

/// Splits an ACK message body into the signer's index and signature;
/// a short buffer yields nothing.
pub fn parse_ack(bytes: &[u8]) -> (r: Option<(u16, Sign)>)
    ensures
        r is Some <==> ack_parses(bytes@),
        r matches Some(p) ==> bytes@.len() >= 6 && p.0 as nat == bytes_le::from_le(
            bytes@.subrange(0, 2),
        ) && p.1@ =~= bytes@.subrange(6, 6 + bytes_le::from_le(bytes@.subrange(2, 6)) as int),
{
    let blen = bytes.len();
    if blen < 6 {
        return None;
    }
    proof {
        bytes_le::lemma_from_le_bound(bytes@.subrange(0, 2));
        bytes_le::lemma_from_le_bound(bytes@.subrange(2, 6));
        bytes_le::lemma_pow256_values();
    }
    let i = bytes_le::le_read(bytes, 0, 2) as u16;
    let sig_len = bytes_le::le_read(bytes, 2, 4) as usize;
    if blen - 6 < sig_len {
        return None;
    }
    let sig = vstd::slice::slice_to_vec(vstd::slice::slice_subrange(bytes, 6, 6 + sig_len));
    Some((i, sig))
}

/// True when a buffer opens with a parseable NEWSHARE body: an index,
/// a share, and a proof.
pub open spec fn newshare_parses(b: Seq<u8>) -> bool {
    b.len() >= 2 && (match crate::crypto::fe_scan(b.skip(2)) {
        Some(ss) => crate::crypto::proof_scan(b.skip((2 + ss.1) as int)) is Some,
        None => false,
    })
}

/// Splits a NEWSHARE message body into the sender's index, share and
/// proof, the index little-endian and the rest by its canonical scan;
/// anything that does not parse yields nothing.
pub fn parse_newshare(bytes: &[u8]) -> (r: Option<(u16, Share, Proof)>)
    ensures
        r is Some <==> newshare_parses(bytes@),
        r matches Some(p) ==> bytes@.len() >= 2 && p.0 as nat == bytes_le::from_le(
            bytes@.subrange(0, 2),
        ) && (crate::crypto::fe_scan(bytes@.skip(2)) matches Some(ss) && p.1@ == ss.0 && (
        crate::crypto::proof_scan(bytes@.skip(2 + ss.1 as int)) matches Some(pp) && p.2@
            == pp.0)),
{
    let blen = bytes.len();
    if blen < 2 {
        return None;
    }
    proof {
        bytes_le::lemma_from_le_bound(bytes@.subrange(0, 2));
        bytes_le::lemma_pow256_values();
    }
    let i = bytes_le::le_read(bytes, 0, 2) as u16;
    let rest = vstd::slice::slice_subrange(bytes, 2, blen);
    proof {
        assert(rest@ =~= bytes@.skip(2));
    }
    let (share, sn) = match Share::read(rest) {
        Some(p) => p,
        None => {
            return None;
        },
    };
    let rest2 = vstd::slice::slice_subrange(rest, sn, blen - 2);
    proof {
        assert(rest2@ =~= bytes@.skip(2 + sn as int));
    }
    let (proof, _) = match Proof::read(rest2) {
        Some(p) => p,
        None => {
            return None;
        },
    };
    Some((i, share, proof))
}

} // verus!
