use chess_engine::EvaluationValue;
use std::cmp::Ordering;

#[test]
fn test_eval_value() {
    let less = EvaluationValue::CheckMate(false);
    let more = EvaluationValue::CheckMate(true);
    assert!(more > less);
}

#[test]
fn test_eval_value_1() {
    let less = EvaluationValue::Eval(-12837);
    let more = EvaluationValue::CheckMate(true);
    assert!(more > less);
}

#[test]
fn eval_value_orders_scores_between_the_mates() {
    let lost = EvaluationValue::CheckMate(false);
    let won = EvaluationValue::CheckMate(true);
    let low = EvaluationValue::Eval(-5);
    let high = EvaluationValue::Eval(7);
    assert_eq!(lost.cmp(&low), Ordering::Less);
    assert_eq!(low.cmp(&high), Ordering::Less);
    assert_eq!(high.cmp(&won), Ordering::Less);
    assert_eq!(won.cmp(&lost), Ordering::Greater);
    assert_eq!(high.cmp(&high), Ordering::Equal);
    assert_eq!(won.cmp(&won), Ordering::Equal);
    assert!(low < high);
    assert!(lost < low);
}

#[test]
fn eval_value_from_score_maps_the_sentinels() {
    assert_eq!(EvaluationValue::from(chess_engine::INF), EvaluationValue::CheckMate(true));
    assert_eq!(EvaluationValue::from(-chess_engine::INF), EvaluationValue::CheckMate(false));
    assert_eq!(EvaluationValue::from(42), EvaluationValue::Eval(42));
    assert_eq!(EvaluationValue::from(0), EvaluationValue::Eval(0));
}
