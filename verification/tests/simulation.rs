use neuroevolution::RouletteWheelSelection;

#[test]
fn it_works() {
    let _ = RouletteWheelSelection::new();
    assert_eq!(2 + 2, 4);
}
