use lattice_psbt::{
    ByteMap, Global, Join, JoinError, OrderedInputs, OutPoint, PartialJoin, PartialVin, PartialVout, TxIn,
    TxOut, UnOrderedInputs, ValueSet, Vin, Vout,
};

fn pvin(b: u8, seq: Option<u32>) -> PartialVin {
    let mut v = PartialVin::from(Vin::from_input(&TxIn {
        previous_output: OutPoint { txid: vec![b; 32], vout: 0 },
        ..Default::default()
    }));
    v.data.sequence = seq;
    v
}

#[test]
fn global_join_with_itself_gives_it_back() {
    let mut g = Global::default();
    g.input_count = 4;
    g.output_count = 2;
    g.proprietaries.insert(vec![1], vec![2]);
    let j = PartialJoin::join(&g, &g).unwrap();
    assert_eq!(j.input_count, 4);
    assert_eq!(j.output_count, 2);
    assert!(j.proprietaries.same_map(&g.proprietaries));
    assert_eq!(j.version, g.version);
}

#[test]
fn global_join_keeps_the_larger_counts() {
    let mut a = Global::default();
    a.input_count = 4;
    a.output_count = 1;
    let mut b = Global::default();
    b.input_count = 2;
    b.output_count = 3;
    let ab = PartialJoin::join(&a, &b).unwrap();
    let ba = PartialJoin::join(&b, &a).unwrap();
    assert_eq!((ab.input_count, ab.output_count), (4, 3));
    assert_eq!((ba.input_count, ba.output_count), (4, 3));
}

#[test]
fn partial_vin_join_is_associative_on_samples() {
    let samples = [pvin(1, None), pvin(1, Some(5)), pvin(1, Some(6)), PartialVin::default()];
    for a in &samples {
        assert_eq!(a.join(a).unwrap(), *a);
        for b in &samples {
            assert_eq!(a.join(b), b.join(a));
            for c in &samples {
                let left = a.join(b).and_then(|ab| ab.join(c));
                let right = b.join(c).and_then(|bc| a.join(&bc));
                assert_eq!(left.is_ok(), right.is_ok());
                if let (Ok(l), Ok(r)) = (left, right) {
                    assert_eq!(l, r);
                }
            }
        }
    }
}

#[test]
fn join_keeps_what_both_sides_know() {
    let a = pvin(2, Some(1));
    let b = PartialVin { spent_output_index: Some(0), ..Default::default() };
    let j = a.join(&b).unwrap();
    assert_eq!(j.previous_output, a.previous_output);
    assert_eq!(j.spent_output_index, Some(0));
    assert_eq!(j.data.sequence, Some(1));
}

#[test]
fn complete_output_join_matches_partial_join() {
    let mut a = Vout::from_output(&TxOut { value: 7, script_pubkey: vec![1, 2] });
    let mut b = a.clone();
    a.data.redeem_script = Some(vec![3]);
    b.data.unknowns.insert(vec![9], vec![9]);
    let complete = a.join(&b).unwrap();
    let partial = PartialVout::from(a.clone()).join(&PartialVout::from(b.clone())).unwrap();
    assert_eq!(Vout::try_from(partial).unwrap(), complete);
}

#[test]
fn unordered_join_is_associative_on_sample() {
    let make = |b: u8| {
        let mut s = UnOrderedInputs::default();
        s.insert_input(pvin(b, None)).unwrap();
        s
    };
    let (a, b, c) = (make(1), make(2), make(1));
    let left = a.join(&b).unwrap().join(&c).unwrap();
    let right = a.join(&b.join(&c).unwrap()).unwrap();
    assert_eq!(left.inputs().len(), 2);
    assert_eq!(right.inputs().len(), 2);
    assert_eq!(left.global().input_count, right.global().input_count);
    assert!(left.inputs().contains(&pvin(2, None)));
    assert!(right.inputs().contains(&pvin(1, None)));
}

#[test]
fn ordered_inputs_join_is_idempotent_with_matching_counts() {
    let mut g = Global::default();
    g.input_count = 1;
    let mut outs: ValueSet<PartialVout> = ValueSet::new();
    outs.insert(PartialVout::default());
    g.output_count = 1;
    let a = OrderedInputs::from_parts(vec![pvin(3, None)], outs, g);
    let j = a.join(&a).unwrap();
    assert_eq!(j.inputs(), a.inputs());
    assert_eq!(j.outputs().len(), 1);
    assert_eq!(j.global().input_count, 1);
    assert_eq!(j.global().output_count, 1);
}

#[test]
fn map_join_with_empty_map_gives_it_back() {
    let mut a = ByteMap::new();
    a.insert(vec![1], vec![1]);
    assert!(a.join(&ByteMap::new()).unwrap().same_map(&a));
    assert!(ByteMap::new().join(&a).unwrap().same_map(&a));
}

#[test]
fn unordered_join_with_merged_inputs_is_associative_on_sample() {
    let make = |seq: Option<u32>, min_time: Option<u32>| {
        let mut p = pvin(4, seq);
        p.data.min_time = min_time;
        let mut s = UnOrderedInputs::default();
        s.insert_input(p).unwrap();
        s.insert_input(pvin(9, None)).unwrap();
        s
    };
    let (a, b, c) = (make(Some(1), None), make(None, Some(2)), make(Some(1), Some(2)));
    let left = a.join(&b).unwrap().join(&c).unwrap();
    let right = a.join(&b.join(&c).unwrap()).unwrap();
    assert_eq!(left.inputs().len(), 2);
    assert_eq!(right.inputs().len(), 2);
    assert_eq!(left.global().input_count, 2);
    let mut merged = pvin(4, Some(1));
    merged.data.min_time = Some(2);
    assert!(left.inputs().contains(&merged));
    assert!(right.inputs().contains(&merged));
    let d = make(Some(3), None);
    assert!(a.join(&b).unwrap().join(&d).is_err());
    assert!(b.join(&d).is_ok());
    assert!(a.join(&b.join(&d).unwrap()).is_err());
}

#[test]
fn maps_built_in_any_order_are_equal() {
    let mut a = ByteMap::new();
    a.insert(vec![3], vec![1]);
    a.insert(vec![1, 2], vec![2]);
    a.insert(vec![1], vec![3]);
    let mut b = ByteMap::new();
    b.insert(vec![1], vec![3]);
    b.insert(vec![3], vec![1]);
    b.insert(vec![1, 2], vec![2]);
    assert_eq!(a, b);
    let keys: Vec<Vec<u8>> = a.entries().iter().map(|e| e.0.clone()).collect();
    assert_eq!(keys, vec![vec![1], vec![1, 2], vec![3]]);
}

#[test]
fn unordered_join_fails_alike_however_grouped() {
    let one = |sig: u8, seq: Option<u32>| {
        let mut p = pvin(6, seq);
        p.data.partial_sigs.insert(vec![1], vec![sig]);
        let mut s = UnOrderedInputs::default();
        s.insert_input(p).unwrap();
        s
    };
    let a = one(1, None);
    let b = one(2, Some(1));
    let c = one(2, Some(2));
    let left = a.join(&b).and_then(|ab| ab.join(&c));
    let right = b.join(&c).and_then(|bc| a.join(&bc));
    assert_eq!(left, Err(JoinError::ScalarDisagree));
    assert_eq!(right, Err(JoinError::ScalarDisagree));
    assert_eq!(left, right);
}

#[test]
fn value_sets_compare_as_sets() {
    let mut a: ValueSet<PartialVout> = ValueSet::new();
    a.insert(PartialVout { value: Some(1), ..Default::default() });
    a.insert(PartialVout { value: Some(2), ..Default::default() });
    let mut b: ValueSet<PartialVout> = ValueSet::new();
    b.insert(PartialVout { value: Some(2), ..Default::default() });
    b.insert(PartialVout { value: Some(1), ..Default::default() });
    assert_eq!(a, b);
    b.insert(PartialVout::default());
    assert_ne!(a, b);
}
