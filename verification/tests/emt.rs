use vecfit::dims::check_state_space;
use vecfit::emt::{assemble_state_space, count_states, pair_poles, PolePairing, SectionBlock};

#[test]
fn first_and_second_order_sections_assemble_block_diagonally() {
    let blocks = vec![
        SectionBlock::First { pole: -1.0, residue: 2.0 },
        SectionBlock::Second { neg_a0: -5.0, neg_a1: -2.0, b0: 3.0, b1: 4.0 },
    ];
    assert_eq!(count_states(&blocks), 3);
    let ss = assemble_state_space(&blocks, 0.0, 1.0);
    assert_eq!(ss.n_states, 3);
    assert_eq!(
        ss.a,
        vec![
            -1.0, 0.0, 0.0, //
            0.0, 0.0, 1.0, //
            0.0, -5.0, -2.0,
        ]
    );
    assert_eq!(ss.b, vec![1.0, 0.0, 1.0]);
    assert_eq!(ss.c, vec![2.0, 3.0, 4.0]);
    assert!(check_state_space(ss.a.len(), ss.b.len(), ss.c.len(), ss.n_states).is_ok());
}

#[test]
fn empty_section_list_gives_empty_realization() {
    let blocks: Vec<SectionBlock<f64>> = Vec::new();
    let ss = assemble_state_space(&blocks, 0.0, 1.0);
    assert_eq!(ss.n_states, 0);
    assert!(ss.a.is_empty() && ss.b.is_empty() && ss.c.is_empty());
}

#[test]
fn assembled_realization_always_has_consistent_sizes() {
    let blocks = vec![
        SectionBlock::Second { neg_a0: -1, neg_a1: -1, b0: 1, b1: 1 },
        SectionBlock::First { pole: -3, residue: 7 },
        SectionBlock::Second { neg_a0: -2, neg_a1: -4, b0: 5, b1: 6 },
    ];
    let ss = assemble_state_space(&blocks, 0, 1);
    assert_eq!(ss.n_states, 5);
    assert_eq!(ss.a.len(), 25);
    assert!(check_state_space(ss.a.len(), ss.b.len(), ss.c.len(), ss.n_states).is_ok());
    assert_eq!(ss.a[2 * 5 + 2], -3);
    assert_eq!(ss.a[4 * 5 + 3], -2);
    assert_eq!(ss.a[4 * 5 + 4], -4);
    assert_eq!(ss.a[3 * 5 + 4], 1);
    assert_eq!(ss.a[0 * 5 + 4], 0);
}

fn conjugate_matches(poles: &[(f64, f64)]) -> Vec<Vec<bool>> {
    poles
        .iter()
        .map(|p| {
            poles
                .iter()
                .map(|o| (o.0 - p.0).abs() <= 1e-8 && (o.1 + p.1).abs() <= 1e-8)
                .collect()
        })
        .collect()
}

#[test]
fn poles_pair_into_real_and_conjugate_sections() {
    let poles: [(f64, f64); 4] = [(-1.0, 0.0), (-2.0, 3.0), (-5.0, 0.0), (-2.0, -3.0)];
    let is_real: Vec<bool> = poles.iter().map(|p| p.1.abs() <= 1e-8).collect();
    let plan = pair_poles(&is_real, &conjugate_matches(&poles));
    assert!(plan.complete);
    assert_eq!(
        plan.sections,
        vec![PolePairing::Real(0), PolePairing::Pair(1, 3), PolePairing::Real(2)]
    );
}

#[test]
fn unmatched_complex_pole_stops_the_pairing() {
    let poles: [(f64, f64); 3] = [(-1.0, 0.0), (-2.0, 3.0), (-5.0, 0.0)];
    let is_real: Vec<bool> = poles.iter().map(|p| p.1.abs() <= 1e-8).collect();
    let plan = pair_poles(&is_real, &conjugate_matches(&poles));
    assert!(!plan.complete);
    assert_eq!(plan.sections, vec![PolePairing::Real(0)]);
}

#[test]
fn each_pole_is_paired_once() {
    let poles = [(-2.0, 3.0), (-2.0, -3.0), (-2.0, 3.0), (-2.0, -3.0)];
    let is_real = vec![false; 4];
    let plan = pair_poles(&is_real, &conjugate_matches(&poles));
    assert!(plan.complete);
    assert_eq!(plan.sections, vec![PolePairing::Pair(0, 1), PolePairing::Pair(2, 3)]);
}

#[test]
fn emt_exports_work_for_real_model() {
    // Poles -1 and -4 with residues 2 and 1 on one channel.
    let poles: [(f64, f64); 2] = [(-1.0, 0.0), (-4.0, 0.0)];
    let residues = [2.0, 1.0];
    let is_real: Vec<bool> = poles.iter().map(|p| p.1.abs() <= 1e-8).collect();
    let plan = pair_poles(&is_real, &conjugate_matches(&poles));
    assert!(plan.complete);
    let blocks: Vec<SectionBlock<f64>> = plan
        .sections
        .iter()
        .map(|s| match *s {
            PolePairing::Real(k) => SectionBlock::First { pole: poles[k].0, residue: residues[k] },
            PolePairing::Pair(..) => panic!("real poles pair alone"),
        })
        .collect();
    let ss = assemble_state_space(&blocks, 0.0, 1.0);
    assert_eq!(ss.n_states, 2);
    assert_eq!(ss.a, vec![-1.0, 0.0, 0.0, -4.0]);
    assert_eq!(ss.b, vec![1.0, 1.0]);
    assert_eq!(ss.c, vec![2.0, 1.0]);
    assert!(check_state_space(ss.a.len(), ss.b.len(), ss.c.len(), ss.n_states).is_ok());
}
