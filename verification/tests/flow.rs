use lattice_psbt::{
    ByteMap, Global, Join, OutPoint, PartialVin, PartialVout, Psbt, PsbtConversionError, TxIn,
    TxOut, Transaction, UnOrderedInputs, Vin, Vout,
};

fn vin_with(txid_byte: u8, vout: u32) -> PartialVin {
    PartialVin::from(Vin::from_input(&TxIn {
        previous_output: OutPoint { txid: vec![txid_byte; 32], vout },
        ..Default::default()
    }))
}

fn vout_with(sats: u64, script: Vec<u8>) -> PartialVout {
    PartialVout::from(Vout::from_output(&TxOut { value: sats, script_pubkey: script }))
}

#[test]
fn full_flow() {
    let mut tx = Transaction::<UnOrderedInputs>::new();
    let my_vin = Vin::from_input(&TxIn::default());
    tx.insert_input(PartialVin::from(my_vin.clone())).unwrap();

    let mut tx = tx.apply_bip69_ordering();
    let my_vout = Vout::from_output(&TxOut { value: 1000, script_pubkey: Vec::new() });
    tx.insert_output(PartialVout::from(my_vout.clone()));
    let tx = tx.apply_bip69_ordering();
    let tx = tx.finalize();
    let psbt = Psbt::try_from(tx).unwrap();
    assert_eq!(psbt.global.tx_version, 2);
    assert_eq!(psbt.global.input_count, 1);
    assert_eq!(psbt.global.output_count, 1);
    assert_eq!(psbt.global.xpubs, ByteMap::new());
    assert_eq!(psbt.global.proprietaries, ByteMap::new());
    assert_eq!(psbt.global.unknowns, ByteMap::new());
    assert_eq!(psbt.global.fallback_lock_time, None);
    assert_eq!(psbt.global.tx_modifiable_flags, 0);
    assert_eq!(psbt.global.version, 2);

    assert_eq!(psbt.inputs[0].previous_output, my_vin.previous_output);
    assert_eq!(psbt.inputs[0].spent_output_index, my_vin.spent_output_index);
    assert_eq!(psbt.outputs[0].value, my_vout.value);
    assert_eq!(psbt.outputs[0].script_pubkey, my_vout.script_pubkey);
    assert_eq!(psbt.outputs[0].data.redeem_script, None);
    assert_eq!(psbt.outputs[0].data.witness_script, None);
    assert_eq!(psbt.outputs[0].data.bip32_derivations, ByteMap::new());
    assert_eq!(psbt.outputs[0].data.tap_internal_key, None);
    assert_eq!(psbt.outputs[0].data.tap_tree, None);
    assert_eq!(psbt.outputs[0].data.tap_key_origins, ByteMap::new());
    assert_eq!(psbt.outputs[0].data.proprietaries, ByteMap::new());
    assert_eq!(psbt.outputs[0].data.unknowns, ByteMap::new());
}

#[test]
fn psbt_global_count_recomputed() {
    let mut tx = Transaction::<UnOrderedInputs>::new();
    tx.insert_input(vin_with(1, 0)).unwrap();
    let mut global = Global::default();
    global.input_count = 99;
    tx.set_global(global);

    let joined = tx.join(&tx).unwrap();
    assert_eq!(joined.global().input_count, 1);
    assert_eq!(joined.global().output_count, 0);
}

#[test]
fn default_txin_spends_the_null_outpoint() {
    let txin = TxIn::default();
    assert_eq!(txin.previous_output.txid, vec![0u8; 32]);
    assert_eq!(txin.previous_output.vout, u32::MAX);
    assert_eq!(txin.sequence, u32::MAX);
    assert!(txin.script_sig.is_empty());
    assert!(txin.witness.is_empty());
}

#[test]
fn bip69_orders_inputs_by_txid_then_index() {
    let mut tx = Transaction::<UnOrderedInputs>::new();
    tx.insert_input(vin_with(3, 0)).unwrap();
    tx.insert_input(vin_with(1, 7)).unwrap();
    tx.insert_input(vin_with(1, 2)).unwrap();
    tx.insert_input(vin_with(2, 9)).unwrap();
    let tx = tx.apply_bip69_ordering();
    let keys: Vec<(Vec<u8>, u32)> = tx
        .inputs()
        .iter()
        .map(|i| (i.previous_output.clone().unwrap(), i.spent_output_index.unwrap()))
        .collect();
    assert_eq!(
        keys,
        vec![(vec![1u8; 32], 2), (vec![1u8; 32], 7), (vec![2u8; 32], 9), (vec![3u8; 32], 0)]
    );
}

#[test]
fn bip69_orders_outputs_by_amount_then_script() {
    let mut tx = Transaction::<UnOrderedInputs>::new().apply_bip69_ordering();
    tx.insert_output(vout_with(2000, vec![1]));
    tx.insert_output(vout_with(1000, vec![2, 0]));
    tx.insert_output(vout_with(1000, vec![1, 5]));
    tx.insert_output(vout_with(1000, vec![1]));
    let tx = tx.apply_bip69_ordering();
    let keys: Vec<(u64, Vec<u8>)> = tx
        .outputs()
        .iter()
        .map(|o| (o.value.unwrap(), o.script_pubkey.clone().unwrap()))
        .collect();
    assert_eq!(
        keys,
        vec![(1000, vec![1]), (1000, vec![1, 5]), (1000, vec![2, 0]), (2000, vec![1])]
    );
}

#[test]
fn unknown_outpoints_sort_first() {
    let mut tx = Transaction::<UnOrderedInputs>::new();
    tx.insert_input(vin_with(0, 0)).unwrap();
    tx.insert_input(PartialVin::default()).unwrap();
    let tx = tx.apply_bip69_ordering();
    assert_eq!(tx.inputs()[0].previous_output, None);
    assert_eq!(tx.inputs()[1].previous_output, Some(vec![0u8; 32]));
}

#[test]
fn salted_ordering_keeps_every_input_once() {
    let mut tx = Transaction::<UnOrderedInputs>::new();
    for b in 0..8u8 {
        tx.insert_input(vin_with(b, b as u32)).unwrap();
    }
    let tx = tx.apply_ordering_with_salt(&[7u8; 32]);
    let mut seen: Vec<u8> = tx.inputs().iter().map(|i| i.previous_output.as_ref().unwrap()[0]).collect();
    assert_eq!(seen.len(), 8);
    assert_ne!(seen, (0..8u8).collect::<Vec<u8>>());
    seen.sort();
    assert_eq!(seen, (0..8u8).collect::<Vec<u8>>());
}

#[test]
fn salted_ordering_of_outputs_keeps_every_output_once() {
    let mut tx = Transaction::<UnOrderedInputs>::new().apply_bip69_ordering();
    for v in 0..8u64 {
        tx.insert_output(vout_with(v, vec![]));
    }
    let tx = tx.apply_ordering_with_salt(&[9u8; 32]);
    let mut seen: Vec<u64> = tx.outputs().iter().map(|o| o.value.unwrap()).collect();
    assert_ne!(seen, (0..8u64).collect::<Vec<u64>>());
    seen.sort();
    assert_eq!(seen, (0..8u64).collect::<Vec<u64>>());
}

#[test]
fn salted_order_depends_only_on_the_set_and_the_salt() {
    let build = |order: &[u8]| {
        let mut tx = Transaction::<UnOrderedInputs>::new();
        for &b in order {
            tx.insert_input(vin_with(b, 0)).unwrap();
        }
        tx.apply_ordering_with_salt(&[3u8; 32])
    };
    let a: Vec<PartialVin> = build(&[0, 1, 2, 3, 4, 5]).inputs().clone();
    let b: Vec<PartialVin> = build(&[5, 3, 1, 0, 2, 4]).inputs().clone();
    assert_eq!(a, b);
    let outs = |order: &[u64]| {
        let mut tx = Transaction::<UnOrderedInputs>::new().apply_bip69_ordering();
        for &v in order {
            tx.insert_output(vout_with(v, vec![1]));
        }
        tx.apply_ordering_with_salt(&[4u8; 32])
    };
    let c: Vec<PartialVout> = outs(&[10, 20, 30, 40]).outputs().clone();
    let d: Vec<PartialVout> = outs(&[40, 30, 10, 20]).outputs().clone();
    assert_eq!(c, d);
}

#[test]
fn bip69_compares_txids_as_displayed() {
    let mut first = vec![0u8; 32];
    first[0] = 1;
    let mut second = vec![0u8; 32];
    second[31] = 1;
    let mut tx = Transaction::<UnOrderedInputs>::new();
    tx.insert_input(PartialVin { previous_output: Some(second.clone()), spent_output_index: Some(0), ..Default::default() })
        .unwrap();
    tx.insert_input(PartialVin { previous_output: Some(first.clone()), spent_output_index: Some(0), ..Default::default() })
        .unwrap();
    let tx = tx.apply_bip69_ordering();
    assert_eq!(tx.inputs()[0].previous_output, Some(first));
    assert_eq!(tx.inputs()[1].previous_output, Some(second));
}

#[test]
fn inputs_with_one_outpoint_merge() {
    let mut tx = Transaction::<UnOrderedInputs>::new();
    let mut a = vin_with(7, 1);
    a.data.sequence = Some(9);
    let mut b = vin_with(7, 1);
    b.data.partial_sigs.insert(vec![1], vec![2]);
    tx.insert_input(a).unwrap();
    tx.insert_input(b).unwrap();
    assert_eq!(tx.inputs().len(), 1);
    let merged = &tx.inputs().items()[0];
    assert_eq!(merged.data.sequence, Some(9));
    assert_eq!(merged.data.partial_sigs.get(&[1]), Some(&vec![2]));
    let mut c = vin_with(7, 1);
    c.data.sequence = Some(10);
    assert_eq!(tx.insert_input(c).err(), Some(lattice_psbt::JoinError::ScalarDisagree));
    assert_eq!(tx.inputs().len(), 1);
    tx.insert_input(vin_with(7, 2)).unwrap();
    assert_eq!(tx.inputs().len(), 2);
}

#[test]
fn same_salt_gives_same_order() {
    let build = || {
        let mut tx = Transaction::<UnOrderedInputs>::new();
        for b in 0..6u8 {
            tx.insert_input(vin_with(b, 0)).unwrap();
        }
        tx.apply_ordering_with_salt(&[42u8; 32])
    };
    let a: Vec<PartialVin> = build().inputs().clone();
    let b: Vec<PartialVin> = build().inputs().clone();
    assert_eq!(a, b);
}

#[test]
fn conversion_reports_first_missing_txid() {
    let mut tx = Transaction::<UnOrderedInputs>::new();
    tx.insert_input(vin_with(5, 0)).unwrap();
    tx.insert_input(PartialVin::default()).unwrap();
    let tx = tx.apply_bip69_ordering().apply_bip69_ordering().finalize();
    assert_eq!(Psbt::try_from(tx).err(), Some(PsbtConversionError::MissingOutpointTxid(0)));
}

#[test]
fn conversion_reports_missing_vout() {
    let mut tx = Transaction::<UnOrderedInputs>::new();
    tx.insert_input(vin_with(5, 0)).unwrap();
    let partial = PartialVin { previous_output: Some(vec![9u8; 32]), ..Default::default() };
    tx.insert_input(partial).unwrap();
    let tx = tx.apply_bip69_ordering().apply_bip69_ordering().finalize();
    assert_eq!(Psbt::try_from(tx).err(), Some(PsbtConversionError::MissingOutpointVout(1)));
}

#[test]
fn conversion_reports_missing_value() {
    let mut tx = Transaction::<UnOrderedInputs>::new().apply_bip69_ordering();
    tx.insert_output(vout_with(10, vec![1]));
    tx.insert_output(PartialVout { script_pubkey: Some(vec![2]), ..Default::default() });
    let tx = tx.apply_bip69_ordering().finalize();
    assert_eq!(Psbt::try_from(tx).err(), Some(PsbtConversionError::MissingValue(0)));
}

#[test]
fn conversion_reports_missing_script() {
    let mut tx = Transaction::<UnOrderedInputs>::new().apply_bip69_ordering();
    tx.insert_output(vout_with(10, vec![1]));
    tx.insert_output(PartialVout { value: Some(20), ..Default::default() });
    let tx = tx.apply_bip69_ordering().finalize();
    assert_eq!(Psbt::try_from(tx).err(), Some(PsbtConversionError::MissingScriptPubkey(1)));
}

#[test]
fn conversion_keeps_only_the_transaction_fields_of_inputs() {
    let mut vin = vin_with(4, 1);
    vin.data.sequence = Some(5);
    vin.data.sighash_type = Some(1);
    vin.data.final_script_sig = Some(vec![0xaa]);
    vin.data.partial_sigs.insert(vec![1], vec![2]);
    let mut tx = Transaction::<UnOrderedInputs>::new();
    tx.insert_input(vin).unwrap();
    let mut global = Global::default();
    global.tx_version = 3;
    global.tx_modifiable_flags = 1;
    global.fallback_lock_time = Some(500);
    tx.set_global(global);
    let tx = tx.apply_bip69_ordering().apply_bip69_ordering().finalize();
    let psbt = Psbt::try_from(tx).unwrap();
    assert_eq!(psbt.global.tx_version, 3);
    assert_eq!(psbt.global.tx_modifiable_flags, 0);
    assert_eq!(psbt.global.fallback_lock_time, Some(500));
    assert_eq!(psbt.global.output_count, 0);
    let data = &psbt.inputs[0].data;
    assert_eq!(data.sequence, Some(5));
    assert_eq!(data.final_script_sig, Some(vec![0xaa]));
    assert_eq!(data.sighash_type, None);
    assert!(data.partial_sigs.is_empty());
}

#[test]
fn finalize_keeps_the_state() {
    let mut tx = Transaction::<UnOrderedInputs>::new();
    tx.insert_input(vin_with(1, 1)).unwrap();
    let tx = tx.apply_bip69_ordering().apply_bip69_ordering().finalize();
    assert_eq!(tx.inputs().len(), 1);
    assert_eq!(tx.outputs().len(), 0);
    assert_eq!(tx.global().version, 2);
}

#[test]
fn outputs_that_bip69_ties_get_one_order() {
    let build = |first: u8, second: u8| {
        let mut tx = Transaction::<UnOrderedInputs>::new().apply_bip69_ordering();
        for tag in [first, second] {
            let mut out = vout_with(500, vec![7]);
            out.data.redeem_script = Some(vec![tag]);
            tx.insert_output(out);
        }
        tx.apply_bip69_ordering()
    };
    let a: Vec<PartialVout> = build(2, 1).outputs().clone();
    let b: Vec<PartialVout> = build(1, 2).outputs().clone();
    assert_eq!(a, b);
    assert_eq!(a[0].data.redeem_script, Some(vec![1]));
    assert_eq!(a[1].data.redeem_script, Some(vec![2]));
}
