//! Whole protocol rounds driven in process: honest sharing, sleeper
//! behaviour, late acknowledgements, tampering, and reconstruction.
use avss_bench::crypto::{ed_keygen, interpolate, verify, Commitment, Share};
use avss_bench::node::Node;
use avss_bench::protocol::{
    dealer_start, first_receiv, parse_ack, parse_newshare, parse_rest, parse_share_msg,
    verify_and_output, DealerState,
};
use avss_bench::{ByzComp, ErrorCode, Step};

/// Builds an n-party population with known keys and addresses; party
/// `i` listens on port 9100 + i. `sleepers` parties at the front are
/// sleepers; the dealer is the party at `dealer`.
fn population(n: u16, t: u16, dealer: u16, sleepers: u16) -> Vec<Node> {
    let addrs: Vec<String> = (0..n).map(|i| format!("127.0.0.1:{}", 9100 + i)).collect();
    let mut nodes = Vec::new();
    let mut keys = Vec::new();
    for i in 0..n {
        let (pkcs8, pub_der) = ed_keygen();
        keys.push(pub_der.clone());
        let mut node = Node::new(9100 + i, pkcs8, pub_der);
        let byz = if i < sleepers {
            ByzComp::Sleeper
        } else {
            ByzComp::Honnest
        };
        node.setup(dealer, byz, t, n, &addrs);
        nodes.push(node);
    }
    for node in nodes.iter_mut() {
        for (i, key) in keys.iter().enumerate() {
            node.new_key(i as u16, key.clone());
        }
        assert!(node.im_ready());
        assert_eq!(node.index, node.port - 9100);
    }
    nodes
}

/// Runs the Sharing phase: the dealer deals, parties acknowledge
/// (except those in `drop_acks`), the dealer broadcasts REST, and
/// every party verifies. Returns the per-party outcome codes, the
/// dealer state, and the parsed commitment.
fn run_sharing(
    nodes: &mut Vec<Node>,
    t: u16,
    dealer: u16,
    drop_acks: &[u16],
) -> (Vec<ErrorCode>, DealerState, Commitment) {
    let n = nodes.len() as u16;
    let (mut state, messages) = dealer_start(t, n, u128::MAX).expect("dealing failed");
    let mut acks = Vec::new();
    for (i, msg) in messages.iter().enumerate() {
        assert_eq!(msg[0], 1, "SHARE command byte");
        let (proof, comm, share) = parse_share_msg(&msg[1..]).expect("SHARE must parse");
        if let Some(ack) = first_receiv(&mut nodes[i], comm, share, proof, 5) {
            assert_eq!(ack[0], 2, "ACK command byte");
            acks.push(parse_ack(&ack[1..]).expect("ACK must parse"));
        }
    }
    let network = nodes[dealer as usize].network.clone();
    let mut done = false;
    for (i, sig) in acks {
        if drop_acks.contains(&i) {
            continue;
        }
        if state.record_ack(i, sig, &network) {
            done = true;
            break;
        }
    }
    assert!(done, "the dealer never reached 2t+1 signatures");
    let rest = state.assemble_rest();
    assert_eq!(rest[0], 3, "REST command byte");
    let (comm, sigs, missing) = parse_rest(&rest[1..]).expect("REST must parse");
    let mut codes = Vec::new();
    for node in nodes.iter_mut() {
        let (code, out) = verify_and_output(
            node,
            Commitment {
                vkey: comm.vkey.clone(),
                comm: comm.comm.clone(),
                degree_bound: comm.degree_bound,
            },
            sigs.clone(),
            missing.clone(),
            3,
            9,
        );
        assert!(out.is_some(), "first OUTPUT of the round must be emitted");
        codes.push(code);
    }
    (codes, state, comm)
}

#[test]
fn honest_round_all_ok_and_secret_reconstructs() {
    let n = 4u16;
    let t = 1u16;
    let mut nodes = population(n, t, 0, 0);
    let (codes, _, comm) = run_sharing(&mut nodes, t, 0, &[]);
    for code in &codes {
        assert_eq!(*code, ErrorCode::OK);
    }
    // Every party holds a verifying share of its own (correctness of sharing).
    for node in &nodes {
        let i = node.index;
        let entry = node.shares.get(i);
        assert!(verify(node.shares.get_comm(), i + 1, &entry.0, &entry.1));
    }
    // Interpolating any 2t + 1 = 3 of the four shares of the
    // degree-2t polynomial recovers the secret's low 128 bits:
    // u128::MAX reinterpreted as -1.
    let share_of = |i: usize| Share {
        bytes: nodes[i].shares.get(i as u16).0.bytes.clone(),
    };
    let points = vec![(0u16, share_of(0)), (1u16, share_of(1)), (2u16, share_of(2))];
    assert_eq!(interpolate(&points), -1i128);
    let other = vec![(1u16, share_of(1)), (2u16, share_of(2)), (3u16, share_of(3))];
    assert_eq!(interpolate(&other), -1i128);
    let _ = comm;
}

#[test]
fn reconstruction_gathers_and_stops_once() {
    let n = 4u16;
    let t = 1u16;
    let mut nodes = population(n, t, 0, 0);
    let (codes, _, _) = run_sharing(&mut nodes, t, 0, &[]);
    assert!(codes.iter().all(|c| *c == ErrorCode::OK));
    // RECONSTRUCT at every node; collect the NEWSHARE broadcasts.
    let mut broadcasts = Vec::new();
    for node in nodes.iter_mut() {
        let msg = node.reconstruct().expect("honest nodes broadcast");
        assert_eq!(msg[0], 7, "NEWSHARE command byte");
        broadcasts.push(msg);
    }
    // The dealer stops listening at exactly 2t + 1 = 3 signatures, so
    // one share rides in the REST batch: each table starts with the
    // party's own share and the batch one; peers' NEWSHAREs fill the
    // rest of node 0's table.
    assert_eq!(nodes[0].reconstruct_share_set.len(), 2);
    let mut outputs = 0;
    for msg in &broadcasts {
        let (i, share, proof) = parse_newshare(&msg[1..]).expect("NEWSHARE must parse");
        let before = nodes[0].reconstruct_share_set.len();
        let own = i == 0;
        let completed = nodes[0].new_share(i, share, proof);
        if own {
            // Repeated receipt of a known key is a no-op.
            assert!(!completed);
            assert_eq!(nodes[0].reconstruct_share_set.len(), before);
        }
        if completed {
            // |set| passed 2t: the one Reconstruct OUTPUT is owed.
            let out = nodes[0].output(Step::Reconstruct, ErrorCode::OK, 11);
            assert!(out.is_some());
            outputs += 1;
        }
    }
    // Completion fired exactly once, and a late STOP emits nothing
    // more: exactly one OUTPUT per node per round.
    assert_eq!(outputs, 1);
    assert!(nodes[0].stop_reconstruct(12).is_none());
}

#[test]
fn sleeper_never_signs_and_its_share_rides_in_missing() {
    let n = 4u16;
    let t = 1u16;
    // One sleeper at node 0; the dealer is node 1.
    let mut nodes = population(n, t, 1, 1);
    let (mut state, messages) = dealer_start(t, n, u128::MAX).expect("dealing failed");
    let mut acks = Vec::new();
    for (i, msg) in messages.iter().enumerate() {
        let (proof, comm, share) = parse_share_msg(&msg[1..]).expect("SHARE must parse");
        let reply = first_receiv(&mut nodes[i], comm, share, proof, 5);
        if i == 0 {
            assert!(reply.is_none(), "a sleeper never signs");
        }
        if let Some(ack) = reply {
            acks.push(parse_ack(&ack[1..]).expect("ACK must parse"));
        }
    }
    assert_eq!(acks.len(), 3, "three honest parties acknowledge");
    let network = nodes[1].network.clone();
    let mut done = false;
    for (i, sig) in acks {
        if state.record_ack(i, sig, &network) {
            done = true;
        }
    }
    assert!(done);
    let rest = state.assemble_rest();
    let (comm, sigs, missing) = parse_rest(&rest[1..]).expect("REST must parse");
    assert_eq!(sigs.len(), 3);
    assert_eq!(missing.len(), 1, "only the sleeper's share is owed");
    assert_eq!(missing[0].0, 0);
    for i in 1..4usize {
        let (code, _) = verify_and_output(
            &mut nodes[i],
            Commitment {
                vkey: comm.vkey.clone(),
                comm: comm.comm.clone(),
                degree_bound: comm.degree_bound,
            },
            sigs.clone(),
            missing.clone(),
            3,
            9,
        );
        assert_eq!(code, ErrorCode::OK);
    }
}

#[test]
fn delayed_ack_lands_in_missing_and_still_verifies() {
    let n = 4u16;
    let t = 1u16;
    let mut nodes = population(n, t, 0, 0);
    // Node 2's acknowledgement never reaches the dealer in time.
    let (codes, state, _) = run_sharing(&mut nodes, t, 0, &[2]);
    assert_eq!(state.signatures.len(), 3);
    let rest = state.assemble_rest();
    let (_, sigs, missing) = parse_rest(&rest[1..]).expect("REST must parse");
    assert_eq!(sigs.len(), 3);
    assert_eq!(missing.len(), 1);
    assert_eq!(missing[0].0, 2);
    for code in &codes {
        assert_eq!(*code, ErrorCode::OK);
    }
}

#[test]
fn tampered_commitment_is_rejected_as_unvalid_shares() {
    let n = 4u16;
    let t = 1u16;
    let mut nodes = population(n, t, 0, 0);
    let (mut state, messages) = dealer_start(t, n, u128::MAX).expect("dealing failed");
    let mut acks = Vec::new();
    for (i, msg) in messages.iter().enumerate() {
        let (proof, comm, share) = parse_share_msg(&msg[1..]).expect("SHARE must parse");
        if let Some(ack) = first_receiv(&mut nodes[i], comm, share, proof, 5) {
            acks.push(parse_ack(&ack[1..]).expect("ACK must parse"));
        }
    }
    let network = nodes[0].network.clone();
    for (i, sig) in acks {
        // Drop node 3's acknowledgement so the batch is not empty.
        if i == 3 {
            continue;
        }
        state.record_ack(i, sig, &network);
    }
    let rest = state.assemble_rest();
    let (comm, sigs, missing) = parse_rest(&rest[1..]).expect("REST must parse");
    assert_eq!(missing.len(), 1);
    // Flip one byte of the commitment before handing it to a receiver.
    let mut tampered = comm.comm.clone();
    tampered[0] ^= 0x01;
    let (code, _) = verify_and_output(
        &mut nodes[2],
        Commitment {
            vkey: comm.vkey.clone(),
            comm: tampered,
            degree_bound: comm.degree_bound,
        },
        sigs.clone(),
        missing.clone(),
        3,
        9,
    );
    assert_eq!(code, ErrorCode::UnvalidShares);
}

#[test]
fn mutated_degree_bound_fails_first_receiv() {
    let n = 4u16;
    let t = 1u16;
    let mut nodes = population(n, t, 0, 0);
    let (_, messages) = dealer_start(t, n, u128::MAX).expect("dealing failed");
    let (proof, comm, share) = parse_share_msg(&messages[1][1..]).expect("SHARE must parse");
    assert_eq!(comm.degree_bound, 2 * t as u32);
    let bad = Commitment {
        vkey: comm.vkey.clone(),
        comm: comm.comm.clone(),
        degree_bound: comm.degree_bound + 1,
    };
    let reply = first_receiv(&mut nodes[1], bad, share, proof, 5);
    assert!(reply.is_none(), "a mutated degree bound is never signed");
}

#[test]
fn wrong_signature_count_is_unvalid_signs() {
    let n = 4u16;
    let t = 1u16;
    let mut nodes = population(n, t, 0, 0);
    let (_, state, _) = run_sharing(&mut nodes, t, 0, &[]);
    let rest = state.assemble_rest();
    let (comm, mut sigs, missing) = parse_rest(&rest[1..]).expect("REST must parse");
    sigs.pop();
    nodes[1].im_done = false;
    let (code, _) = verify_and_output(&mut nodes[1], comm, sigs, missing, 3, 9);
    assert_eq!(code, ErrorCode::UnvalidSigns);
}

#[test]
fn overlapping_batch_is_incoherent() {
    let n = 4u16;
    let t = 1u16;
    let mut nodes = population(n, t, 0, 0);
    let (_, state, _) = run_sharing(&mut nodes, t, 0, &[2]);
    let rest = state.assemble_rest();
    let (comm, sigs, mut missing) = parse_rest(&rest[1..]).expect("REST must parse");
    assert_eq!(missing.len(), 1);
    // A second, identical batch entry for the same party verifies but
    // covers the party twice.
    let dup = (
        missing[0].0,
        avss_bench::crypto::Proof {
            bytes: missing[0].1.bytes.clone(),
        },
        Share {
            bytes: missing[0].2.bytes.clone(),
        },
    );
    missing.push(dup);
    nodes[1].im_done = false;
    let (code, _) = verify_and_output(&mut nodes[1], comm, sigs, missing, 3, 9);
    assert_eq!(code, ErrorCode::IncoherentBatch);
}

#[test]
fn missing_coverage_is_reported() {
    let n = 4u16;
    let t = 1u16;
    let mut nodes = population(n, t, 0, 0);
    let (_, state, _) = run_sharing(&mut nodes, t, 0, &[2]);
    let rest = state.assemble_rest();
    let (comm, sigs, _) = parse_rest(&rest[1..]).expect("REST must parse");
    // Drop the batch entirely: party 2 is covered by nobody.
    nodes[1].im_done = false;
    let (code, _) = verify_and_output(&mut nodes[1], comm, sigs, Vec::new(), 3, 9);
    assert_eq!(code, ErrorCode::MissingShare);
}

#[test]
fn tampered_signature_is_unvalid_signs() {
    let n = 4u16;
    let t = 1u16;
    let mut nodes = population(n, t, 0, 0);
    let (_, state, _) = run_sharing(&mut nodes, t, 0, &[]);
    let rest = state.assemble_rest();
    let (comm, mut sigs, missing) = parse_rest(&rest[1..]).expect("REST must parse");
    // Flip one byte of the first signature.
    sigs[0].1[0] ^= 0x01;
    nodes[1].im_done = false;
    let (code, _) = verify_and_output(&mut nodes[1], comm, sigs, missing, 3, 9);
    assert_eq!(code, ErrorCode::UnvalidSigns);
}

#[test]
fn short_public_keys_never_verify() {
    assert!(!avss_bench::crypto::is_valid_sign(&vec![1, 2, 3], &vec![0; 64]));
}
