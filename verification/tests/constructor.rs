use lattice_psbt::{Constructor, InputsOnlyUnordered, OutputsOnlyUnordered, UnOrderedInputs, Unordered};

#[test]
fn fixing_the_order_clears_the_flags() {
    let mut c: Constructor<(), Unordered> = Constructor::<(), Unordered>::new(UnOrderedInputs::default());
    assert!(c.inputs_unordered());
    assert!(c.outputs_unordered());
    c.fix_input_order();
    assert!(!c.inputs_unordered());
    assert!(c.outputs_unordered());
    c.fix_output_order();
    assert!(!c.outputs_unordered());
    assert_eq!(c.psbt().inputs().len(), 0);
}

#[test]
fn fix_order_clears_both() {
    let mut c = Constructor::<(), InputsOnlyUnordered>::new(UnOrderedInputs::default());
    assert!(c.inputs_unordered());
    assert!(!c.outputs_unordered());
    c.fix_order();
    assert!(!c.inputs_unordered());
    assert!(!c.outputs_unordered());
    let d = Constructor::<(), OutputsOnlyUnordered>::new(UnOrderedInputs::default());
    assert!(!d.inputs_unordered());
    assert!(d.outputs_unordered());
}

#[test]
fn constructor_clones_compare_equal() {
    let mut c = Constructor::<(), Unordered>::new(UnOrderedInputs::default());
    let d = c.clone();
    assert_eq!(c, d);
    c.fix_input_order();
    assert_ne!(c, d);
}
