use shielded_tx::batch::verify_transactions;
use shielded_tx::errors::TxError;
use shielded_tx::frost::{CommitmentEntry, ShareEntry, create_signature_share,
    frost_signature_matches};
use shielded_tx::hexstr::{decode_hex, encode_hex};
use shielded_tx::note::{Note, Witness};
use shielded_tx::posted::PostedTransaction;
use shielded_tx::proposed::ProposedTransaction;
use shielded_tx::unsigned::UnsignedTransaction;

fn field(b: u8) -> Vec<u8> {
    vec![b; 32]
}

fn hex32(b: u8) -> String {
    let two = format!("{:02x}", b);
    two.repeat(32)
}

fn note(owner: u8, asset: u8, value: u64, secret: u8) -> Note {
    Note::new(field(owner), field(asset), value, field(secret)).unwrap()
}

fn witness(root: u8) -> Witness {
    Witness {
        root_hash: field(root),
        tree_size: 7,
        position: 3,
        auth_path: (0..32).map(|i| field(i as u8)).collect(),
    }
}

fn native_note(owner: u8, value: u64, secret: u8) -> Note {
    Note::new(field(owner), vec![0u8; 32], value, field(secret)).unwrap()
}

fn simple_posted() -> PostedTransaction {
    let mut p = ProposedTransaction::new(2).unwrap();
    p.spend(&native_note(1, 50, 9), &witness(4)).unwrap();
    p.output(&native_note(2, 30, 8)).unwrap();
    p.set_expiration(77);
    p.post(&hex32(0x11), None, 5).unwrap()
}

#[test]
fn round_trip_posted() {
    let tx = simple_posted();
    let bytes = tx.serialize();
    let back = PostedTransaction::new(&bytes).unwrap();
    assert_eq!(back.serialize(), bytes);
    assert_eq!(back.fee(), 5);
    assert_eq!(back.expiration(), 77);
    assert_eq!(back.spends_length(), 1);
    // one explicit output and one change output (50 - 30 - 5 = 15)
    assert_eq!(back.notes_length(), 2);
    assert_eq!(back.hash(), tx.hash());
}

#[test]
fn hash_is_stable() {
    let tx = simple_posted();
    let h1 = tx.hash();
    let h2 = tx.hash();
    assert_eq!(h1, h2);
    assert_eq!(h1.len(), 32);
    let back = PostedTransaction::new(&tx.serialize()).unwrap();
    assert_eq!(back.hash(), h1);
}

#[test]
fn hash_differs_for_different_bodies() {
    let a = simple_posted();
    let mut p = ProposedTransaction::new(2).unwrap();
    p.output(&native_note(2, 1, 8)).unwrap();
    let b = p.post_miners_fee(&hex32(0x11)).unwrap();
    assert_ne!(a.hash(), b.hash());
}

#[test]
fn miners_fee_is_negative_output_value() {
    let mut p = ProposedTransaction::new(2).unwrap();
    p.output(&native_note(3, 42, 6)).unwrap();
    let tx = p.post_miners_fee(&hex32(0x22)).unwrap();
    assert_eq!(tx.fee(), -42);
    assert_eq!(tx.spends_length(), 0);
    assert_eq!(tx.notes_length(), 1);
}

#[test]
fn miners_fee_rejects_spends() {
    let mut p = ProposedTransaction::new(2).unwrap();
    p.spend(&native_note(1, 10, 9), &witness(4)).unwrap();
    p.output(&native_note(3, 42, 6)).unwrap();
    let err = p.post_miners_fee(&hex32(0x22)).unwrap_err();
    assert_eq!(err, TxError::BalanceError);
}

#[test]
fn verify_empty_batch_is_true() {
    let txs: Vec<Vec<u8>> = vec![];
    assert!(verify_transactions(&txs));
}

#[test]
fn verify_fails_closed_on_garbage() {
    let good = simple_posted().serialize();
    let garbage = vec![1u8, 2, 3, 4];
    assert!(verify_transactions(&vec![good.clone()]));
    assert!(!verify_transactions(&vec![good, garbage]));
}

#[test]
fn parse_garbage_is_parse_error() {
    let err = PostedTransaction::new(&vec![9u8; 10]).unwrap_err();
    assert_eq!(err, TxError::ParseError);
}

#[test]
fn get_note_out_of_range() {
    let tx = simple_posted();
    let err = tx.get_note(99).unwrap_err();
    assert_eq!(err, TxError::RangeError);
    let err = tx.get_spend(1).unwrap_err();
    assert_eq!(err, TxError::RangeError);
    let spend = tx.get_spend(0).unwrap();
    assert_eq!(spend.tree_size, 7);
    assert_eq!(spend.root_hash, field(4));
}

#[test]
fn unknown_version_is_range_error() {
    assert_eq!(ProposedTransaction::new(3).unwrap_err(), TxError::RangeError);
    assert_eq!(ProposedTransaction::new(0).unwrap_err(), TxError::RangeError);
}

#[test]
fn bad_key_hex_is_key_error() {
    let mut p = ProposedTransaction::new(1).unwrap();
    p.output(&native_note(2, 1, 8)).unwrap();
    let err = p.post_miners_fee("not hex at all").unwrap_err();
    assert_eq!(err, TxError::KeyError);
}

#[test]
fn post_fee_too_large_is_range_error() {
    let mut p = ProposedTransaction::new(1).unwrap();
    p.spend(&native_note(1, 50, 9), &witness(4)).unwrap();
    let err = p.post(&hex32(0x11), None, u64::MAX).unwrap_err();
    assert_eq!(err, TxError::RangeError);
}

#[test]
fn post_insufficient_balance_is_balance_error() {
    let mut p = ProposedTransaction::new(1).unwrap();
    p.spend(&native_note(1, 3, 9), &witness(4)).unwrap();
    let err = p.post(&hex32(0x11), None, 10).unwrap_err();
    assert_eq!(err, TxError::BalanceError);
}

#[test]
fn bad_witness_is_proof_error() {
    let mut p = ProposedTransaction::new(1).unwrap();
    let w = Witness { root_hash: field(4), tree_size: 7, position: 3, auth_path: vec![] };
    let err = p.spend(&native_note(1, 3, 9), &w).unwrap_err();
    assert_eq!(err, TxError::ProofError);
}

#[test]
fn burn_bad_asset_is_parse_error() {
    let mut p = ProposedTransaction::new(1).unwrap();
    let err = p.burn(&vec![1u8; 5], 10).unwrap_err();
    assert_eq!(err, TxError::ParseError);
}

#[test]
fn mint_bad_owner_hex_is_key_error() {
    let mut p = ProposedTransaction::new(1).unwrap();
    let err = p.mint(&field(7), 10, Some("zz")).unwrap_err();
    assert_eq!(err, TxError::KeyError);
}

#[test]
fn mint_and_burn_round_trip() {
    let mut p = ProposedTransaction::new(2).unwrap();
    p.mint(&field(7), 1000, Some(&hex32(0x33))).unwrap();
    p.mint(&field(8), 5, None).unwrap();
    p.burn(&field(7), 400).unwrap();
    p.spend(&native_note(1, 10, 9), &witness(4)).unwrap();
    let tx = p.post(&hex32(0x11), Some(&hex32(0x44)), 10).unwrap();
    let bytes = tx.serialize();
    let back = PostedTransaction::new(&bytes).unwrap();
    assert_eq!(back.serialize(), bytes);
    assert_eq!(back.fee(), 10);
}

fn built_unsigned() -> UnsignedTransaction {
    let mut p = ProposedTransaction::new(2).unwrap();
    p.spend(&native_note(1, 50, 9), &witness(4)).unwrap();
    p.output(&native_note(2, 30, 8)).unwrap();
    p.build(&hex32(0x51), &hex32(0x52), &hex32(0x53), &hex32(0x54), 5, None).unwrap()
}

#[test]
fn unsigned_round_trip() {
    let u = built_unsigned();
    let bytes = u.serialize();
    let back = UnsignedTransaction::new(&bytes).unwrap();
    assert_eq!(back.serialize(), bytes);
    assert_eq!(u.public_key_randomness().len(), 64);
}

fn commitments_ab() -> (CommitmentEntry, CommitmentEntry) {
    (
        CommitmentEntry { identifier: hex32(0x01), hiding: hex32(0xaa), binding: hex32(0xbb) },
        CommitmentEntry { identifier: hex32(0x02), hiding: hex32(0xcc), binding: hex32(0xdd) },
    )
}

#[test]
fn signing_package_order_does_not_matter() {
    let u = built_unsigned();
    let (a, b) = commitments_ab();
    let (a2, b2) = commitments_ab();
    let p1 = u.signing_package(&vec![a, b]).unwrap();
    let p2 = u.signing_package(&vec![b2, a2]).unwrap();
    assert_eq!(p1, p2);
}

#[test]
fn signing_package_bad_hex_is_parse_error() {
    let u = built_unsigned();
    let bad = CommitmentEntry {
        identifier: "xyz".to_string(),
        hiding: hex32(0xaa),
        binding: hex32(0xbb),
    };
    assert_eq!(u.signing_package(&vec![bad]).unwrap_err(), TxError::ParseError);
}

#[test]
fn threshold_signing_succeeds_and_verifies() {
    let u = built_unsigned();
    let (a, b) = commitments_ab();
    let pkg = u.signing_package(&vec![a, b]).unwrap();
    let pkp = hex32(0x77);
    let s1 = create_signature_share(&pkp, &hex32(0x01), &pkg).unwrap();
    let s2 = create_signature_share(&pkp, &hex32(0x02), &pkg).unwrap();
    let shares = vec![
        ShareEntry { identifier: hex32(0x01), share: s1 },
        ShareEntry { identifier: hex32(0x02), share: s2 },
    ];
    let tx = u.sign_frost(&pkp, &pkg, &shares).unwrap();
    assert!(frost_signature_matches(&tx, &pkp).unwrap());
    assert!(!frost_signature_matches(&tx, &hex32(0x78)).unwrap());
    let bytes = tx.serialize();
    let back = PostedTransaction::new(&bytes).unwrap();
    assert_eq!(back.serialize(), bytes);
}

#[test]
fn foreign_share_is_signature_error() {
    let u = built_unsigned();
    let (a, b) = commitments_ab();
    let pkg = u.signing_package(&vec![a, b]).unwrap();
    let pkp = hex32(0x77);
    let s1 = create_signature_share(&pkp, &hex32(0x01), &pkg).unwrap();
    // a share computed under another key package does not aggregate
    let foreign = create_signature_share(&hex32(0x99), &hex32(0x02), &pkg).unwrap();
    let shares = vec![
        ShareEntry { identifier: hex32(0x01), share: s1 },
        ShareEntry { identifier: hex32(0x02), share: foreign },
    ];
    assert_eq!(u.sign_frost(&pkp, &pkg, &shares).unwrap_err(), TxError::SignatureError);
}

#[test]
fn sign_frost_wrong_package_hash_is_signature_error() {
    let u = built_unsigned();
    let other = {
        let mut p = ProposedTransaction::new(2).unwrap();
        p.output(&native_note(2, 1, 8)).unwrap();
        p.build(&hex32(0x51), &hex32(0x52), &hex32(0x53), &hex32(0x54), -1, None).unwrap()
    };
    let (a, b) = commitments_ab();
    let pkg_for_other = other.signing_package(&vec![a, b]).unwrap();
    let err = u.sign_frost(&hex32(0x77), &pkg_for_other, &vec![]).unwrap_err();
    assert_eq!(err, TxError::SignatureError);
}

#[test]
fn unchecked_miners_fee_serializes_even_when_invalid() {
    let mut p = ProposedTransaction::new(2).unwrap();
    p.output(&native_note(2, 10, 8)).unwrap();
    p.output(&native_note(3, 20, 7)).unwrap();
    let tx = p.post_miners_fee_unchecked(&hex32(0x11)).unwrap();
    assert_eq!(tx.fee(), -30);
    assert_eq!(tx.notes_length(), 2);
    let bytes = tx.serialize();
    let back = PostedTransaction::new(&bytes).unwrap();
    assert_eq!(back.serialize(), bytes);
}

#[test]
fn hex_round_trip() {
    let bytes = vec![0u8, 15, 16, 255, 171];
    let s = encode_hex(&bytes);
    assert_eq!(s, "000f10ffab");
    assert_eq!(decode_hex(&s, 5).unwrap(), bytes);
    assert!(decode_hex(&s, 4).is_none());
    assert!(decode_hex("0g", 1).is_none());
    assert_eq!(decode_hex("ABCD", 2).unwrap(), vec![0xab, 0xcd]);
}
