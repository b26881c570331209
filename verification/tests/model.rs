use gabriel_laevis::config::ModelConfig;
use gabriel_laevis::model::{
    projection, scan_chunks, try_projection, GenerateError, Generation, GroupRollout,
};

fn serial(ids: &[i64], max_new: usize, stop: Option<i64>) -> Vec<i64> {
    let mut g = Generation::start(&vec![1, 5, 9], max_new, stop).unwrap_or_else(|_| panic!("start"));
    let mut at = 0;
    while g.wants_more() && at < ids.len() {
        g.accept(ids[at]);
        at += 1;
    }
    g.finish()
}

fn group(columns: &[Vec<i64>], max_new: usize, stop: Option<i64>) -> (Vec<Vec<i64>>, usize) {
    let mut s =
        GroupRollout::start(&vec![1], columns.len(), max_new, stop).unwrap_or_else(|_| panic!("start"));
    let mut rounds = 0;
    while s.wants_more() {
        let ids: Vec<i64> = columns.iter().map(|c| c[rounds]).collect();
        s.accept(&ids);
        rounds += 1;
    }
    (s.finish(), rounds)
}

#[test]
fn generation_stops_before_the_stop_token() {
    assert_eq!(serial(&[7, 8, 4, 9], 10, Some(4)), vec![7, 8]);
    assert_eq!(serial(&[7, 8, 4, 9], 10, None), vec![7, 8, 4, 9]);
    assert_eq!(serial(&[7, 8, 4, 9], 2, Some(4)), vec![7, 8]);
    assert_eq!(serial(&[4, 8], 10, Some(4)), Vec::<i64>::new());
    assert_eq!(serial(&[7], 0, None), Vec::<i64>::new());
}

#[test]
fn an_empty_prompt_is_refused() {
    assert!(matches!(Generation::start(&vec![], 5, None), Err(GenerateError::EmptyPrompt)));
    assert!(matches!(GroupRollout::start(&vec![], 2, 5, None), Err(GenerateError::EmptyPrompt)));
}

#[test]
fn a_closed_generation_wants_nothing() {
    let mut g = Generation::start(&vec![1], 5, None).unwrap_or_else(|_| panic!("start"));
    assert!(g.accept(3));
    g.close();
    assert!(!g.wants_more());
    assert_eq!(g.finish(), vec![3]);
}

#[test]
fn group_rows_match_serial_rows() {
    let columns = vec![vec![7, 8, 4, 1, 1], vec![4, 2, 2, 2, 2], vec![5, 5, 5, 4, 6]];
    let (rows, rounds) = group(&columns, 5, Some(4));
    assert_eq!(rows, vec![vec![7, 8], vec![], vec![5, 5, 5]]);
    assert_eq!(rounds, 4, "sampling ends once every row has stopped");
    for (row, ids) in rows.iter().zip(&columns) {
        assert_eq!(row, &serial(ids, 5, Some(4)));
    }
    let (rows, rounds) = group(&columns, 2, Some(4));
    assert_eq!(rows, vec![vec![7, 8], vec![], vec![5, 5]]);
    assert_eq!(rounds, 2);
    let (rows, rounds) = group(&[], 5, Some(4));
    assert!(rows.is_empty());
    assert_eq!(rounds, 1);
}

#[test]
fn projection_segments_are_laid_out_in_order() {
    // d_inner 768, 12 heads, one group of 128, 32 angles.
    let p = projection(&ModelConfig::new());
    assert_eq!(
        (p.x, p.z, p.b, p.c, p.dt, p.a, p.trap, p.theta),
        (768, 1536, 1664, 1792, 1804, 1816, 1828, 1860)
    );
}

#[test]
fn shapes_without_a_layout_are_refused() {
    let c = ModelConfig::new();
    assert_eq!(try_projection(&c), Some(projection(&c)));
    assert_eq!(try_projection(&ModelConfig::new().with_d_state(30)), None);
    assert_eq!(try_projection(&ModelConfig::new().with_expand(usize::MAX)), None);
    assert_eq!(try_projection(&ModelConfig::new().with_d_state(usize::MAX - 3)), None);
}

#[test]
fn chunks_cover_the_scan() {
    assert_eq!(scan_chunks(10, 4), vec![(0, 4), (4, 8), (8, 10)]);
    assert_eq!(scan_chunks(8, 4), vec![(0, 4), (4, 8)]);
    assert_eq!(scan_chunks(3, 0), vec![(0, 1), (1, 2), (2, 3)]);
    assert_eq!(scan_chunks(3, 100), vec![(0, 3)]);
    assert_eq!(scan_chunks(0, 4), Vec::<(usize, usize)>::new());
}
