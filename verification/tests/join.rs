use lattice_psbt::{
    ByteMap, Global, Join, JoinError, OrderedInputs, OrderedOutputs, OutPoint, PartialJoin,
    PartialVin, PartialVout, TxIn, TxOut, UnOrderedInputs, ValueError, ValueSet, Vin,
    VinConversionError, Vout, VoutConversionError,
};

fn map_of(entries: &[(&[u8], &[u8])]) -> ByteMap {
    let mut m = ByteMap::new();
    for (k, v) in entries {
        m.insert(k.to_vec(), v.to_vec());
    }
    m
}

fn vin(txid_byte: u8, vout: u32) -> Vin {
    Vin::from_input(&TxIn {
        previous_output: OutPoint { txid: vec![txid_byte; 32], vout },
        ..Default::default()
    })
}

#[test]
fn test_join_outputs() {
    let output_amount = 1000u64;
    let output_script_pubkey: Vec<u8> = Vec::new();

    let p1 = PartialVout { value: Some(output_amount), ..Default::default() };
    let p1_again = PartialVout { value: Some(output_amount), ..Default::default() };
    let p1_joined = p1.join(&p1_again).unwrap();
    assert_eq!(p1_joined.value, Some(output_amount));

    let p1_with_different_value = PartialVout { value: Some(2000), ..Default::default() };
    let p1_joined_with_different_value = p1.join(&p1_with_different_value).err();
    assert_eq!(p1_joined_with_different_value, Some(JoinError::ScalarDisagree));

    let p1_with_different_script_pubkey =
        PartialVout { script_pubkey: Some(Vec::new()), ..Default::default() };
    let p1_joined_with_different_script_pubkey = p1.join(&p1_with_different_script_pubkey).unwrap();
    assert_eq!(p1_joined_with_different_script_pubkey.script_pubkey, Some(output_script_pubkey));
    assert_eq!(p1_joined.value, Some(output_amount));
}

#[test]
fn option_join_fills_unknown_values() {
    assert_eq!(None::<u32>.join(&Some(3)), Ok(Some(3)));
    assert_eq!(Some(3u32).join(&None), Ok(Some(3)));
    assert_eq!(None::<u32>.join(&None), Ok(None));
    assert_eq!(Some(3u32).join(&Some(3)), Ok(Some(3)));
    assert_eq!(Some(3u32).join(&Some(4)), Err(JoinError::ScalarDisagree));
    assert_eq!(Some(vec![1u8]).join(&Some(vec![1u8, 2])), Err(JoinError::ScalarDisagree));
}

#[test]
fn option_join_laws_on_samples() {
    let samples = [None, Some(1u32), Some(2u32)];
    for a in &samples {
        assert_eq!(a.join(a), Ok(*a));
        for b in &samples {
            assert_eq!(a.join(b), b.join(a));
            for c in &samples {
                let left = a.join(b).and_then(|ab| ab.join(c));
                let right = b.join(c).and_then(|bc| a.join(&bc));
                assert_eq!(left, right);
            }
        }
    }
}

#[test]
fn scalar_partial_join() {
    assert_eq!(PartialJoin::join(&7u32, &7u32), Ok(7));
    assert_eq!(PartialJoin::join(&7u32, &8u32), Err(ValueError::Conflict));
    assert_eq!(PartialJoin::join(&vec![1u8], &vec![1u8]), Ok(vec![1u8]));
    assert_eq!(PartialJoin::join(&vec![1u8], &vec![2u8]), Err(ValueError::Conflict));
    assert_eq!(PartialJoin::join(&-1i32, &-1i32), Ok(-1));
    assert_eq!(PartialJoin::join(&5usize, &6usize), Err(ValueError::Conflict));
}

#[test]
fn map_join_is_union_when_keys_agree() {
    let a = map_of(&[(b"k1", b"v1"), (b"k2", b"v2")]);
    let b = map_of(&[(b"k2", b"v2"), (b"k3", b"v3")]);
    let ab = a.join(&b).unwrap();
    assert_eq!(ab.get(b"k1"), Some(&b"v1".to_vec()));
    assert_eq!(ab.get(b"k2"), Some(&b"v2".to_vec()));
    assert_eq!(ab.get(b"k3"), Some(&b"v3".to_vec()));
    assert_eq!(ab.entries().len(), 3);
    let ba = b.join(&a).unwrap();
    assert!(ab.same_map(&ba));
    assert!(a.join(&a).unwrap().same_map(&a));
}

#[test]
fn map_join_reports_key_collision() {
    let a = map_of(&[(b"k", b"one")]);
    let b = map_of(&[(b"k", b"two"), (b"x", b"y")]);
    assert_eq!(a.join(&b).err(), Some(JoinError::StructuralMismatch));
    assert_eq!(b.join(&a).err(), Some(JoinError::StructuralMismatch));
}

#[test]
fn map_join_is_associative_on_samples() {
    let maps = [
        map_of(&[]),
        map_of(&[(b"a", b"1")]),
        map_of(&[(b"a", b"2")]),
        map_of(&[(b"b", b"1"), (b"a", b"1")]),
    ];
    for a in &maps {
        for b in &maps {
            for c in &maps {
                let left = a.join(b).and_then(|ab| ab.join(c));
                let right = b.join(c).and_then(|bc| a.join(&bc));
                match (left, right) {
                    (Ok(l), Ok(r)) => assert!(l.same_map(&r)),
                    (Err(l), Err(r)) => assert_eq!(l, r),
                    _ => panic!("one grouping failed and the other did not"),
                }
            }
        }
    }
}

#[test]
fn map_insert_replaces_value() {
    let mut m = ByteMap::new();
    assert!(m.is_empty());
    m.insert(vec![1], vec![10]);
    m.insert(vec![2], vec![20]);
    m.insert(vec![1], vec![11]);
    assert!(!m.is_empty());
    assert_eq!(m.get(&[1]), Some(&vec![11]));
    assert_eq!(m.get(&[2]), Some(&vec![20]));
    assert_eq!(m.get(&[3]), None);
    assert_eq!(m.entries().len(), 2);
    let copy = m.clone();
    assert!(copy.same_map(&m));
}

#[test]
fn set_join_is_union() {
    let mut a: ValueSet<Vin> = ValueSet::new();
    let mut b: ValueSet<Vin> = ValueSet::new();
    assert!(a.insert(vin(1, 0)));
    assert!(!a.insert(vin(1, 0)));
    a.insert(vin(2, 0));
    b.insert(vin(2, 0));
    b.insert(vin(3, 0));
    let ab = a.join(&b).unwrap();
    assert_eq!(ab.len(), 3);
    assert!(ab.contains(&vin(1, 0)));
    assert!(ab.contains(&vin(3, 0)));
    assert!(!ab.contains(&vin(4, 0)));
    let ba = b.join(&a).unwrap();
    assert_eq!(ba.len(), 3);
    assert_eq!(a.join(&a).unwrap().len(), 2);
}

#[test]
fn vin_join_requires_same_outpoint() {
    let a = vin(1, 0);
    let b = vin(1, 1);
    assert_eq!(a.join(&b).err(), Some(JoinError::ScalarDisagree));
    let mut c = vin(1, 0);
    c.data.sequence = Some(9);
    let joined = a.join(&c).unwrap();
    assert_eq!(joined.data.sequence, Some(9));
    assert_eq!(joined, c.join(&a).unwrap());
    assert_eq!(a.join(&a).unwrap(), a);
}

#[test]
fn vin_data_join_reports_any_field_as_disagreement() {
    let mut a = vin(1, 0);
    let mut b = vin(1, 0);
    a.data.partial_sigs.insert(vec![1], vec![1]);
    b.data.partial_sigs.insert(vec![1], vec![2]);
    assert_eq!(a.join(&b).err(), Some(JoinError::ScalarDisagree));
    a.data.sequence = Some(1);
    b.data.sequence = Some(2);
    assert_eq!(a.join(&b).err(), Some(JoinError::ScalarDisagree));
}

#[test]
fn partial_vin_join_fills_outpoint() {
    let a = PartialVin { previous_output: Some(vec![1u8; 32]), ..Default::default() };
    let b = PartialVin { spent_output_index: Some(4), ..Default::default() };
    let ab = a.join(&b).unwrap();
    assert_eq!(ab.previous_output, Some(vec![1u8; 32]));
    assert_eq!(ab.spent_output_index, Some(4));
    assert_eq!(ab, b.join(&a).unwrap());
    let c = PartialVin { spent_output_index: Some(5), ..Default::default() };
    assert_eq!(b.join(&c).err(), Some(JoinError::ScalarDisagree));
}

#[test]
fn vout_join_requires_same_amount_and_script() {
    let a = Vout::from_output(&TxOut { value: 5, script_pubkey: vec![1] });
    assert_eq!(a.join(&a.clone().with_value(6)).err(), Some(JoinError::ScalarDisagree));
    assert_eq!(a.join(&a.clone().with_script_pubkey(vec![2])).err(), Some(JoinError::ScalarDisagree));
    let mut b = a.clone();
    b.data.tap_tree = Some(vec![7]);
    assert_eq!(a.join(&b).unwrap().data.tap_tree, Some(vec![7]));
}

#[test]
fn with_value_and_script_replace_fields() {
    let v = Vout::from_output(&TxOut { value: 5, script_pubkey: vec![1] })
        .with_value(8)
        .with_script_pubkey(vec![3, 4]);
    assert_eq!(v.value, 8);
    assert_eq!(v.script_pubkey, vec![3, 4]);
}

#[test]
fn vin_conversions() {
    assert_eq!(Vin::try_from(PartialVin::default()).err(), Some(VinConversionError::MissingTxid));
    let p = PartialVin { previous_output: Some(vec![0u8; 32]), ..Default::default() };
    assert_eq!(Vin::try_from(p).err(), Some(VinConversionError::MissingVout));
    let v = vin(3, 2);
    assert_eq!(Vin::try_from(PartialVin::from(v.clone())).unwrap(), v);
}

#[test]
fn vout_conversions() {
    assert_eq!(Vout::try_from(PartialVout::default()).err(), Some(VoutConversionError::MissingValue));
    let p = PartialVout { value: Some(1), ..Default::default() };
    assert_eq!(Vout::try_from(p).err(), Some(VoutConversionError::MissingScriptPubkey));
    let v = Vout::from_output(&TxOut { value: 9, script_pubkey: vec![5] });
    assert_eq!(Vout::try_from(PartialVout::from(v.clone())).unwrap(), v);
}

#[test]
fn global_join() {
    let a = Global::default();
    let mut b = Global::default();
    b.fallback_lock_time = Some(100);
    b.input_count = 3;
    let ab = PartialJoin::join(&a, &b).unwrap();
    assert_eq!(ab.fallback_lock_time, Some(100));
    assert_eq!(ab.input_count, 3);
    let mut c = Global::default();
    c.tx_version = 1;
    assert_eq!(PartialJoin::join(&a, &c).err(), Some(ValueError::Conflict));
    let mut d = Global::default();
    d.xpubs.insert(vec![1], vec![1]);
    let mut e = Global::default();
    e.xpubs.insert(vec![1], vec![2]);
    assert_eq!(PartialJoin::join(&d, &e).err(), Some(ValueError::Conflict));
}

#[test]
fn unordered_join_reports_global_disagreement() {
    let mut a = UnOrderedInputs::default();
    let mut g = Global::default();
    g.tx_modifiable_flags = 1;
    a.set_global(g);
    let b = UnOrderedInputs::default();
    assert_eq!(a.join(&b).err(), Some(JoinError::ScalarDisagree));
}

#[test]
fn unordered_join_is_commutative_on_sample() {
    let mut a = UnOrderedInputs::default();
    a.insert_input(PartialVin::from(vin(1, 0))).unwrap();
    let mut b = UnOrderedInputs::default();
    b.insert_input(PartialVin::from(vin(2, 0))).unwrap();
    let ab = a.join(&b).unwrap();
    let ba = b.join(&a).unwrap();
    assert_eq!(ab.inputs().len(), 2);
    assert_eq!(ba.inputs().len(), 2);
    assert_eq!(ab.global().input_count, 2);
    assert!(ab.inputs().contains(&PartialVin::from(vin(2, 0))));
    assert!(ba.inputs().contains(&PartialVin::from(vin(1, 0))));
}

#[test]
fn unordered_join_merges_inputs_of_one_outpoint() {
    let mut x = PartialVin::from(vin(1, 0));
    x.data.sequence = Some(5);
    let mut y = PartialVin::from(vin(1, 0));
    y.data.min_time = Some(6);
    let mut a = UnOrderedInputs::default();
    a.insert_input(x).unwrap();
    let mut b = UnOrderedInputs::default();
    b.insert_input(y).unwrap();
    let ab = a.join(&b).unwrap();
    assert_eq!(ab.inputs().len(), 1);
    assert_eq!(ab.global().input_count, 1);
    let merged = &ab.inputs().items()[0];
    assert_eq!(merged.data.sequence, Some(5));
    assert_eq!(merged.data.min_time, Some(6));
    let mut z = PartialVin::from(vin(1, 0));
    z.data.sequence = Some(7);
    let mut c = UnOrderedInputs::default();
    c.insert_input(z).unwrap();
    assert_eq!(a.join(&c).err(), Some(JoinError::ScalarDisagree));
    assert_eq!(c.join(&a).err(), Some(JoinError::ScalarDisagree));
}

#[test]
fn ordered_inputs_join_refuses_different_orders() {
    let a = OrderedInputs::from_parts(vec![PartialVin::from(vin(1, 0))], ValueSet::new(), Global::default());
    let mut outs: ValueSet<PartialVout> = ValueSet::new();
    outs.insert(PartialVout { value: Some(3), ..Default::default() });
    let b = OrderedInputs::from_parts(vec![PartialVin::from(vin(2, 0))], outs.clone(), Global::default());
    assert_eq!(a.join(&b).err(), Some(JoinError::ScalarDisagree));
    assert_eq!(b.join(&a).err(), Some(JoinError::ScalarDisagree));
    let c = OrderedInputs::from_parts(vec![PartialVin::from(vin(1, 0))], outs, Global::default());
    let ac = a.join(&c).unwrap();
    assert_eq!(ac.inputs().len(), 1);
    assert_eq!(ac.inputs()[0], PartialVin::from(vin(1, 0)));
    assert_eq!(ac.outputs().len(), 1);
    assert_eq!(ac.global().input_count, 1);
    assert_eq!(ac.global().output_count, 1);
}

#[test]
fn ordered_outputs_join_refuses_different_lists() {
    let a = OrderedOutputs::from_parts(Vec::new(), vec![PartialVout::default()], Global::default());
    let mut g = Global::default();
    g.unknowns.insert(vec![0], vec![1]);
    let b = OrderedOutputs::from_parts(vec![PartialVin::default()], Vec::new(), g.clone());
    assert_eq!(a.join(&b).err(), Some(JoinError::ScalarDisagree));
    let c = OrderedOutputs::from_parts(Vec::new(), vec![PartialVout::default()], g);
    let ac = a.join(&c).unwrap();
    assert_eq!(ac.inputs().len(), 0);
    assert_eq!(ac.outputs().len(), 1);
    assert_eq!(ac.global().output_count, 1);
    assert_eq!(ac.global().unknowns.get(&[0]), Some(&vec![1]));
}
