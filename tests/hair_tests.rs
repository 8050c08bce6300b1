use hair::average::mean_length;
use hair::strands::{Hair, INITIAL_LENGTH, STRAND_COUNT};
use hair::render::{get_named_divider, repeat_text, strand_line};
use hair::schedule::{action_at, action_label, Action};

#[test]
fn cut_clamps_only_longer_strands() {
    let mut hair = Hair::from_lengths(vec![10, 20, 30]);
    hair.cut(15);
    assert_eq!(hair.strand_lengths(), &vec![10, 15, 15]);
}

#[test]
fn cut_twice_is_cut_once() {
    let mut once = Hair::from_lengths(vec![3, 9, 27, 81]);
    once.cut(10);
    let mut twice = Hair::from_lengths(vec![3, 9, 27, 81]);
    twice.cut(10);
    twice.cut(10);
    assert_eq!(once.strand_lengths(), twice.strand_lengths());
    assert_eq!(once.strand_lengths(), &vec![3, 9, 10, 10]);
}

#[test]
fn cut_to_zero_and_empty_head() {
    let mut hair = Hair::from_lengths(vec![4, 0, 7]);
    hair.cut(0);
    assert_eq!(hair.strand_lengths(), &vec![0, 0, 0]);
    let mut bald = Hair::from_lengths(vec![]);
    bald.cut(5);
    assert!(bald.strand_lengths().is_empty());
}

#[test]
fn zero_growth_is_a_no_op() {
    let mut hair = Hair::from_lengths(vec![5]);
    hair.grow(0);
    assert_eq!(hair.strand_lengths(), &vec![5]);
}

#[test]
fn growth_stays_within_limit() {
    let before: Vec<usize> = vec![0, 1, 2, 100, 7];
    let mut hair = Hair::from_lengths(before.clone());
    let mut growth_below_limit = false;
    for _ in 0..20 {
        let prev = hair.strand_lengths().clone();
        hair.grow(3);
        let now = hair.strand_lengths();
        assert_eq!(now.len(), prev.len());
        for i in 0..now.len() {
            assert!(prev[i] <= now[i] && now[i] <= prev[i] + 3);
            growth_below_limit |= now[i] < prev[i] + 3;
        }
    }
    assert!(growth_below_limit);
}

#[test]
fn grow_by_adds_each_amount() {
    let mut hair = Hair::from_lengths(vec![1, 2, 3]);
    hair.grow_by(&vec![10, 0, 5]);
    assert_eq!(hair.strand_lengths(), &vec![11, 2, 8]);
}

#[test]
fn grow_by_saturates_and_ignores_missing_amounts() {
    let mut hair = Hair::from_lengths(vec![usize::MAX - 1, 4]);
    hair.grow_by(&vec![5]);
    assert_eq!(hair.strand_lengths(), &vec![usize::MAX, 4]);
}

#[test]
fn breaking_bald_strands_leaves_zero() {
    let mut hair = Hair::from_lengths(vec![0, 0, 0]);
    hair.break_strands();
    assert_eq!(hair.strand_lengths(), &vec![0, 0, 0]);
}

#[test]
fn breaking_never_lengthens() {
    let mut hair = Hair::from_lengths(vec![1000; 2000]);
    let mut some_broke = false;
    for _ in 0..5 {
        let prev = hair.strand_lengths().clone();
        hair.break_strands();
        let now = hair.strand_lengths();
        assert_eq!(now.len(), prev.len());
        for i in 0..now.len() {
            assert!(now[i] <= prev[i]);
            some_broke |= now[i] < prev[i];
        }
    }
    assert!(some_broke);
    assert!(hair.strand_lengths().iter().any(|l| *l == 1000));
}

#[test]
fn shorten_by_stops_at_zero() {
    let mut hair = Hair::from_lengths(vec![10, 3, 8, 6]);
    hair.shorten_by(&vec![4, 5, 0]);
    assert_eq!(hair.strand_lengths(), &vec![6, 0, 8, 6]);
}

#[test]
fn mean_rounds_down() {
    assert_eq!(mean_length(&vec![1, 2, 4]), 2);
    assert_eq!(mean_length(&vec![9]), 9);
    assert_eq!(mean_length(&vec![]), 0);
    assert_eq!(mean_length(&vec![usize::MAX, usize::MAX]), usize::MAX);
}

#[test]
fn cut_to_average_uses_inliers() {
    let mut hair = Hair::from_lengths(vec![10, 12, 11, 100]);
    let target = hair.cut_to_average_of(&vec![10, 12, 11]);
    assert_eq!(target, 11);
    assert_eq!(hair.strand_lengths(), &vec![10, 11, 11, 11]);
}

#[test]
fn cut_to_average_falls_back_to_all_strands() {
    let mut hair = Hair::from_lengths(vec![10, 12, 11, 100]);
    let target = hair.cut_to_average_of(&vec![]);
    assert_eq!(target, 33);
    assert_eq!(hair.strand_lengths(), &vec![10, 12, 11, 33]);
    let max = 100;
    assert!(target <= max);
}

#[test]
fn new_head_has_equal_short_strands() {
    let hair = Hair::new();
    assert_eq!(hair.strand_lengths(), &vec![INITIAL_LENGTH; STRAND_COUNT]);
    assert_eq!(hair.strand_lengths().len(), 50);
}

#[test]
fn strand_lines_draw_lengths() {
    assert_eq!(strand_line(0), "");
    assert_eq!(strand_line(3), "---");
}

#[test]
fn render_draws_each_strand() {
    let hair = Hair::from_lengths(vec![0, 3, 1]);
    assert_eq!(hair.render(), vec!["".to_string(), "---".to_string(), "-".to_string()]);
    assert_eq!(hair.to_text(), "\n---\n-\n");
}

#[test]
fn repeat_text_repeats_piece() {
    assert_eq!(repeat_text("ab", 3), "ababab");
    assert_eq!(repeat_text("ab", 0), "");
}

#[test]
fn named_divider_fills_width() {
    let d = get_named_divider("grow", "~", 10);
    assert_eq!(d, "grow ~~~~~");
    assert_eq!(get_named_divider("cut", "~", 4), "cut ");
}

#[test]
fn schedule_grows_breaks_then_cuts() {
    assert_eq!(action_at(0), Action::Grow);
    assert_eq!(action_at(1), Action::Break);
    assert_eq!(action_at(28), Action::Grow);
    assert_eq!(action_at(29), Action::Break);
    assert_eq!(action_at(30), Action::Cut);
    assert_eq!(action_at(31), Action::Grow);
    assert_eq!(action_at(61), Action::Cut);
    assert_eq!(action_label(Action::Break), "break");
    assert_eq!(action_label(Action::Cut), "cut");
    assert_eq!(action_label(Action::Grow), "grow");
}
