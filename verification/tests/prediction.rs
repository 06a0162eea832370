use naive_bayes::model::{ModelError, NaiveBayesModel};

fn trained(samples: &[(&str, &str)]) -> NaiveBayesModel {
    let mut model = NaiveBayesModel::empty();
    for (text, class) in samples {
        assert_eq!(model.collect_data(text, class), Ok(()));
    }
    model
}

#[test]
fn predict_before_training_fails() {
    let model = NaiveBayesModel::empty();
    assert_eq!(model.predict("anything".to_string()), Err(ModelError::ModelEmpty));
    assert_eq!(model.predict(String::new()), Err(ModelError::ModelEmpty));
    assert_eq!(model.predict_tokens(&vec![]), Err(ModelError::ModelEmpty));
    let started = NaiveBayesModel::new(None);
    assert_eq!(started.predict("anything".to_string()), Err(ModelError::ModelEmpty));
}

#[test]
fn spam_and_ham() {
    let mut model = NaiveBayesModel::empty();
    assert!(model.train("buy now win prize".to_string(), "spam".to_string()).is_ok());
    assert!(model.train("hello friend how are you".to_string(), "ham".to_string()).is_ok());
    assert_eq!(model.predict("win prize now".to_string()), Ok("spam".to_string()));
    assert_eq!(model.predict("hello how are you".to_string()), Ok("ham".to_string()));
}

#[test]
fn single_class_always_wins() {
    let mut model = NaiveBayesModel::empty();
    assert!(model.train("a a a".to_string(), "x".to_string()).is_ok());
    assert_eq!(model.predict("a".to_string()), Ok("x".to_string()));
    assert_eq!(model.predict("b c d".to_string()), Ok("x".to_string()));
    assert_eq!(model.predict(String::new()), Ok("x".to_string()));
}

#[test]
fn unseen_tokens_still_give_a_class() {
    let model = trained(&[("buy now win prize", "spam"), ("hello friend how are you", "ham")]);
    let label = model.predict("zebra quantum xylophone".to_string());
    // Every token is new: spam scores 1/13^3, ham 1/14^3.
    assert_eq!(label, Ok("spam".to_string()));
}

#[test]
fn class_trained_on_empty_text_is_predicted() {
    let model = trained(&[("", "blank")]);
    assert_eq!(model.predict("some words".to_string()), Ok("blank".to_string()));
    let two = trained(&[("", "first"), ("", "second"), ("", "second")]);
    // The vocabulary is empty: on a text with tokens all scores tie; without tokens the prior decides.
    assert_eq!(two.predict("some words".to_string()), Ok("first".to_string()));
    assert_eq!(two.predict(String::new()), Ok("second".to_string()));
}

#[test]
fn ties_go_to_the_class_trained_first() {
    let model = trained(&[("same words here", "late"), ("same words here", "early")]);
    assert_eq!(model.predict("same words".to_string()), Ok("late".to_string()));
    let other = trained(&[("same words here", "early"), ("same words here", "late")]);
    assert_eq!(other.predict("same words".to_string()), Ok("early".to_string()));
    assert_eq!(other.predict("unknown".to_string()), Ok("early".to_string()));
}

#[test]
fn prior_decides_when_likelihoods_are_equal() {
    let model = trained(&[("x", "rare"), ("x", "common"), ("x", "common")]);
    assert_eq!(model.predict(String::new()), Ok("common".to_string()));
    // rare: 1 * 2/2, common: 2 * 3/3.
    assert_eq!(model.predict("x".to_string()), Ok("common".to_string()));
}

#[test]
fn likelihood_can_outweigh_the_prior() {
    let model = trained(&[("a", "often"), ("a", "often"), ("a", "often"), ("b b b b", "seldom")]);
    // often: 3 * 1/5 = 3/5; seldom: 1 * 5/6.
    assert_eq!(model.predict("b".to_string()), Ok("seldom".to_string()));
    // often: 3 * 4/5 = 12/5; seldom: 1 * 1/6.
    assert_eq!(model.predict("a".to_string()), Ok("often".to_string()));
    // often: 3 * 4/5 * 1/5 = 12/25; seldom: 1 * 1/6 * 5/6 = 5/36.
    assert_eq!(model.predict("a b".to_string()), Ok("often".to_string()));
    // often: 3 * (1/5)^2 = 3/25; seldom: 1 * (5/6)^2 = 25/36.
    assert_eq!(model.predict("b b".to_string()), Ok("seldom".to_string()));
}

#[test]
fn exact_tie_of_different_fractions() {
    // first has 1 sample with the tokens a a b; second has 2 samples with the one token c.
    // The vocabulary is {a, b, c}. For the text "a":
    //   first:  1 * (2 + 1) / (3 + 3) = 3/6
    //   second: 2 * (0 + 1) / (1 + 3) = 2/4
    // Both are one half, written differently: the first trained wins.
    let model = trained(&[("a a b", "first"), ("c", "second"), ("", "second")]);
    assert_eq!(model.predict("a".to_string()), Ok("first".to_string()));
    let swapped = trained(&[("c", "second"), ("", "second"), ("a a b", "first")]);
    assert_eq!(swapped.predict("a".to_string()), Ok("second".to_string()));
}

#[test]
fn scores_are_compared_exactly_on_long_texts() {
    // With 300 tokens the products have hundreds of digits.
    let model = trained(&[("t t u", "left"), ("t t", "right")]);
    // Per token t: left 3/5, right 3/4: right wins, by a factor of (5/4)^300.
    let text = vec!["t"; 300].join(" ");
    assert_eq!(model.predict(text), Ok("right".to_string()));
    // Per token u: left 2/5, right 1/4: left wins.
    let text = vec!["u"; 300].join(" ");
    assert_eq!(model.predict(text), Ok("left".to_string()));
}

#[test]
fn predict_normalises_the_text() {
    let model = trained(&[("Buy NOW!", "spam"), ("see you soon", "ham")]);
    assert_eq!(model.predict("BUY, now?".to_string()), Ok("spam".to_string()));
    assert_eq!(model.predict("\"See\" 'you'".to_string()), Ok("ham".to_string()));
}

#[test]
fn predict_tokens_takes_tokens_as_they_are() {
    let model = trained(&[("buy now", "spam"), ("see you", "ham"), ("see you", "ham")]);
    // "BUY" is no token of the model: only the prior speaks, for ham.
    assert_eq!(model.predict_tokens(&vec!["BUY".to_string()]), Ok("ham".to_string()));
    // spam: 1 * 2/6 * 2/6 = 4/36; ham: 2 * 1/8 * 1/8 = 2/64.
    assert_eq!(
        model.predict_tokens(&vec!["buy".to_string(), "now".to_string()]),
        Ok("spam".to_string())
    );
}

#[test]
fn predict_does_not_change_the_model() {
    let model = trained(&[("a b", "x"), ("c", "y")]);
    let before = model.to_record();
    let _ = model.predict("a c unknown".to_string());
    assert_eq!(model.to_record(), before);
}
