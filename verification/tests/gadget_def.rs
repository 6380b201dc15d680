use fnv::FnvHashSet;
use gadget_up::gadget::DefError;
use gadget_up::gadget::GadgetDef;
use gadget_up::gadget::Port;
use gadget_up::gadget::State;
use gadget_up::gadget::PP;
use gadget_up::gadget::SP;
use gadget_up::gadget::SPSP;

fn sp_multi(pairs: &[(usize, usize)]) -> Vec<SP> {
    pairs.iter().map(|(s, p)| (State(*s), Port(*p))).collect()
}

fn pp_multi(pairs: &[(usize, usize)]) -> Vec<PP> {
    pairs.iter().map(|(p0, p1)| (Port(*p0), Port(*p1))).collect()
}

fn spsp_multi(traversals: &[((usize, usize), (usize, usize))]) -> Vec<SPSP> {
    traversals
        .iter()
        .map(|((s0, p0), (s1, p1))| ((State(*s0), Port(*p0)), (State(*s1), Port(*p1))))
        .collect()
}

fn typed_pairs(pairs: FnvHashSet<(usize, usize)>) -> FnvHashSet<PP> {
    pairs.into_iter().map(|(p0, p1)| (Port(p0), Port(p1))).collect()
}

fn four_by_four() -> GadgetDef {
    GadgetDef::from_traversals(
        4,
        4,
        spsp_multi(&[((0, 0), (1, 1)), ((2, 0), (3, 1)), ((0, 2), (2, 3)), ((1, 2), (3, 3))]),
    ).unwrap()
}

#[test]
fn test_nope() {
    let def = GadgetDef::new(4, 3).unwrap();
    assert_eq!(3, def.num_ports());
    assert_eq!(4, def.num_states());
    assert_eq!(0, def.traversals().iter().count());
}

#[test]
fn test_from_traversals() {
    let def = GadgetDef::from_traversals(2, 2, spsp_multi(&[((0, 0), (1, 1)), ((1, 1), (0, 0))])).unwrap();
    assert_eq!(2, def.num_ports());
    assert_eq!(2, def.num_states());

    let expected = spsp_multi(&[((0, 0), (1, 1)), ((1, 1), (0, 0))])
        .into_iter()
        .collect::<FnvHashSet<_>>();
    let result = def.traversals().iter().copied().collect::<FnvHashSet<_>>();
    assert_eq!(result, expected);
}

#[test]
fn test_targets_from_state_port_empty() {
    let def = GadgetDef::from_traversals(2, 2, spsp_multi(&[((0, 0), (1, 1)), ((1, 1), (0, 0))])).unwrap();

    let expected = sp_multi(&[]).into_iter().collect::<FnvHashSet<_>>();
    let result = def
        .targets_from_state_port((State(0), Port(1)))
        .into_iter()
        .collect::<FnvHashSet<_>>();
    assert_eq!(result, expected);
}

#[test]
fn test_targets_from_state_port_one() {
    let def = GadgetDef::from_traversals(2, 2, spsp_multi(&[((0, 0), (1, 1)), ((1, 1), (0, 0))])).unwrap();

    let expected = sp_multi(&[(0, 0)]).into_iter().collect::<FnvHashSet<_>>();
    let result = def
        .targets_from_state_port((State(1), Port(1)))
        .into_iter()
        .collect::<FnvHashSet<_>>();
    assert_eq!(result, expected);
}

#[test]
fn test_targets_from_state_port_multiple() {
    let def = GadgetDef::from_traversals(2, 2, spsp_multi(&[((0, 0), (1, 1)), ((0, 0), (0, 1))])).unwrap();

    let expected = sp_multi(&[(1, 1), (0, 1)]).into_iter().collect::<FnvHashSet<_>>();
    let result = def
        .targets_from_state_port((State(0), Port(0)))
        .into_iter()
        .collect::<FnvHashSet<_>>();
    assert_eq!(result, expected);
}

#[test]
fn test_port_traversals_in_state_empty() {
    let def = four_by_four();

    let expected = pp_multi(&[]).into_iter().collect::<FnvHashSet<_>>();
    let result = typed_pairs(def.port_traversals_in_state(State(3)));
    assert_eq!(result, expected)
}

#[test]
fn test_port_traversals_in_state_one() {
    let def = four_by_four();

    let expected = pp_multi(&[(2, 3)]).into_iter().collect::<FnvHashSet<_>>();
    let result = typed_pairs(def.port_traversals_in_state(State(1)));
    assert_eq!(result, expected)
}

#[test]
fn test_port_traversals_in_state_multiple() {
    let def = four_by_four();

    let expected = pp_multi(&[(0, 1), (2, 3)]).into_iter().collect::<FnvHashSet<_>>();
    let result = typed_pairs(def.port_traversals_in_state(State(0)));
    assert_eq!(result, expected)
}

#[test]
fn test_port_and_state_ids() {
    assert_eq!(7, Port(7).id());
    assert_eq!(3, State(3).id());
}

#[test]
fn test_traversals_are_listed_in_ascending_order() {
    let def = GadgetDef::from_traversals(
        3,
        3,
        spsp_multi(&[
            ((2, 1), (0, 0)),
            ((0, 2), (1, 1)),
            ((0, 2), (1, 0)),
            ((0, 1), (2, 2)),
            ((0, 2), (0, 2)),
        ]),
    ).unwrap();
    let expected = spsp_multi(&[
        ((0, 1), (2, 2)),
        ((0, 2), (0, 2)),
        ((0, 2), (1, 0)),
        ((0, 2), (1, 1)),
        ((2, 1), (0, 0)),
    ]);
    assert_eq!(def.traversals(), expected);
}

#[test]
fn test_duplicate_traversals_count_once() {
    let def = GadgetDef::from_traversals(
        2,
        2,
        spsp_multi(&[((0, 0), (1, 1)), ((0, 0), (1, 1)), ((1, 1), (0, 0)), ((0, 0), (1, 1))]),
    ).unwrap();
    assert_eq!(def.traversals(), spsp_multi(&[((0, 0), (1, 1)), ((1, 1), (0, 0))]));
    assert_eq!(def.targets_from_state_port((State(0), Port(0))), sp_multi(&[(1, 1)]));
}

#[test]
fn test_targets_are_listed_by_state_then_port() {
    let def = GadgetDef::from_traversals(
        3,
        4,
        spsp_multi(&[
            ((0, 0), (2, 1)),
            ((0, 0), (1, 3)),
            ((0, 0), (1, 2)),
            ((0, 0), (0, 3)),
            ((1, 0), (0, 0)),
            ((0, 1), (0, 0)),
        ]),
    ).unwrap();
    assert_eq!(
        def.targets_from_state_port((State(0), Port(0))),
        sp_multi(&[(0, 3), (1, 2), (1, 3), (2, 1)])
    );
}

#[test]
fn test_targets_regroup_to_the_traversals() {
    let traversals = spsp_multi(&[
        ((0, 0), (1, 1)),
        ((0, 0), (0, 1)),
        ((1, 1), (0, 0)),
        ((1, 0), (1, 1)),
    ]);
    let def = GadgetDef::from_traversals(2, 2, traversals.clone()).unwrap();
    let mut regrouped: FnvHashSet<SPSP> = FnvHashSet::default();
    for s in 0..def.num_states() {
        for p in 0..def.num_ports() {
            let source = (State(s), Port(p));
            for target in def.targets_from_state_port(source) {
                assert!(regrouped.insert((source, target)));
            }
        }
    }
    assert_eq!(regrouped, traversals.into_iter().collect::<FnvHashSet<_>>());
}

#[test]
fn test_port_traversals_keep_source_before_destination() {
    let def = GadgetDef::from_traversals(2, 3, spsp_multi(&[((0, 2), (1, 0)), ((1, 0), (0, 2))])).unwrap();
    let in_state_0 = def.port_traversals_in_state(State(0));
    assert_eq!(in_state_0.len(), 1);
    assert!(in_state_0.contains(&(2, 0)));
    assert!(!in_state_0.contains(&(0, 2)));
}

#[test]
fn test_port_traversals_drop_the_states() {
    let def = GadgetDef::from_traversals(
        3,
        2,
        spsp_multi(&[((0, 0), (1, 1)), ((0, 0), (2, 1)), ((0, 1), (0, 0))]),
    ).unwrap();
    let pairs = typed_pairs(def.port_traversals_in_state(State(0)));
    assert_eq!(pairs, pp_multi(&[(0, 1), (1, 0)]).into_iter().collect::<FnvHashSet<_>>());
}

#[test]
fn test_definition_without_states_is_refused() {
    assert!(matches!(GadgetDef::new(0, 3), Err(DefError::NoStates)));
    assert!(matches!(GadgetDef::new(0, 0), Err(DefError::NoStates)));
    assert!(matches!(GadgetDef::from_traversals(0, 2, spsp_multi(&[])), Err(DefError::NoStates)));
    assert!(GadgetDef::new(1, 0).is_ok());
    assert!(GadgetDef::from_traversals(1, 0, spsp_multi(&[])).is_ok());
}

#[test]
fn test_check_traversals() {
    assert!(GadgetDef::check_traversals(2, 2, &spsp_multi(&[((0, 0), (1, 1)), ((1, 1), (0, 0))])));
    assert!(GadgetDef::check_traversals(0, 0, &spsp_multi(&[])));
    assert!(!GadgetDef::check_traversals(2, 2, &spsp_multi(&[((0, 0), (1, 1)), ((2, 1), (0, 0))])));
    assert!(!GadgetDef::check_traversals(2, 2, &spsp_multi(&[((0, 2), (1, 1))])));
    assert!(!GadgetDef::check_traversals(2, 2, &spsp_multi(&[((0, 0), (2, 1))])));
    assert!(!GadgetDef::check_traversals(2, 2, &spsp_multi(&[((0, 0), (1, 1)), ((0, 0), (1, 2))])));
    assert!(!GadgetDef::check_traversals(0, 1, &spsp_multi(&[((0, 0), (0, 0))])));
}

#[test]
fn test_clone_of_a_definition() {
    let def = four_by_four();
    let copy = def.clone();
    assert_eq!(def.num_states(), copy.num_states());
    assert_eq!(def.num_ports(), copy.num_ports());
    assert_eq!(def.traversals(), copy.traversals());
    assert_eq!(4, copy.traversals().len());
}
