//! What narrations and suggestions have to look like, checked on ones that a
//! model gave, and that the prompts ask for it.

use drift_risk::narrate::NARRATE_SYSTEM_PROMPT;
use drift_risk::suggest::SUGGEST_SYSTEM_PROMPT;
use drift_risk::text::split_words;

fn contains_seven_plus_digit_number(text: &str) -> bool {
    let mut run = 0;
    for c in text.chars() {
        if c.is_ascii_digit() {
            run += 1;
            if run >= 7 {
                return true;
            }
        } else {
            run = 0;
        }
    }
    false
}

const LEAKED_FIELD_SUFFIXES: &[&str] = &["_pct", "_inr", "_log", "_annualized"];

fn contains_a_leaked_field_name(text: &str) -> bool {
    text.split(|c: char| !c.is_alphanumeric() && c != '_')
        .any(|word| LEAKED_FIELD_SUFFIXES.iter().any(|suffix| word.ends_with(suffix)))
}

const PERFORMANCE_NARRATION: &str = "Your portfolio lost 17.8% over the period, bringing total value down to \u{20b9}82.2L while enduring a maximum drawdown of 20.4%. LT.NS was your best performer, whereas TMPV.NS was your worst performer and the primary drag on the book. You took 14.7% annualised volatility for a \u{2212}17.8% return \u{2014} taking on that level of risk was clearly not rewarded. While the underlying environment remains classified as a Bull regime, holding unhedged high-beta single names is severely eroding your capital base. I recommend eliminating TMPV.NS from the portfolio immediately and reallocating that capital into lower-volatility core holdings.";

#[test]
fn portfolio_performance_narration_names_best_and_worst_performer() {
    assert!(PERFORMANCE_NARRATION.contains("LT.NS"));
    assert!(PERFORMANCE_NARRATION.contains("TMPV.NS"));
}

#[test]
fn narration_contains_no_seven_plus_digit_raw_number() {
    assert!(!contains_seven_plus_digit_number(PERFORMANCE_NARRATION));
    assert!(contains_seven_plus_digit_number("your loss is 1195069 rupees"));
}

#[test]
fn narration_contains_no_leaked_field_names() {
    assert!(!contains_a_leaked_field_name(PERFORMANCE_NARRATION));
    assert!(contains_a_leaked_field_name("total_return_pct was -17.8"));
    assert!(contains_a_leaked_field_name("portfolio_pnl_inr is negative"));
    assert!(contains_a_leaked_field_name("portfolio_log_pnl_inr you cited is wrong"));
    assert!(contains_a_leaked_field_name("portfolio_vol_annualized rose"));
}

const SUGGESTIONS: &[&str] = &[
    "Decompose the -17.76% return to isolate the top three portfolio detractors.",
    "Decompose the negative return to isolate the specific sector driving the drawdown.",
    "Decompose the P&L by factor to identify the primary shock driver.",
    "Recalibrate the covariance matrix using rolling 90-day returns.",
];

#[test]
fn suggestions_are_under_15_words_and_are_not_phrased_as_a_question() {
    for suggestion in SUGGESTIONS {
        let word_count = suggestion.split_whitespace().count();
        assert!(word_count < 15, "{suggestion:?} has {word_count} words, expected under 15");
        assert_eq!(split_words(suggestion).len(), word_count);
        assert!(!suggestion.trim_end().ends_with('?'));
    }
}

#[test]
fn prompts_ask_for_indian_notation_and_for_actions() {
    assert!(NARRATE_SYSTEM_PROMPT.contains("Indian notation"));
    assert!(SUGGEST_SYSTEM_PROMPT.contains("action, not a question"));
}
