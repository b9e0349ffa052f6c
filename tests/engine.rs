use conllx_utils::diff::{compare_pair, diff_positions, diff_row, render_cell, render_diff, Cell, LengthMismatch};
use conllx_utils::grep::{annotate, apply_matches, grep_sentence, mark_token, match_positions, sentence_matches};
use conllx_utils::positions::positions_where;
use conllx_utils::layer::{parse_layers, resolve, Layer};
use conllx_utils::pattern::Pattern;
use conllx_utils::text::{join_tabs, split_commas, to_decimal};
use conllx_utils::token::Token;

fn token(form: &str) -> Token {
    Token::new(form)
}

fn with_head_rel(form: &str, rel: &str) -> Token {
    let mut t = Token::new(form);
    t.head_rel = Some(rel.to_string());
    t
}

fn sentence(forms: &[&str]) -> Vec<Token> {
    forms.iter().map(|f| token(f)).collect()
}

fn plain(s: &str) -> String {
    s.replace("\x1b[31m", "").replace("\x1b[0m", "")
}

#[test]
fn diff_of_identical_sentences_is_empty() {
    let a = sentence(&["dog"]);
    let b = sentence(&["dog"]);
    assert_eq!(diff_positions(&a, &b, &[Layer::Form]).unwrap(), Vec::<usize>::new());
    assert_eq!(compare_pair(&a, &b, &[Layer::Form], &[Layer::Form]).unwrap(), Vec::<String>::new());
}

#[test]
fn diff_reports_one_difference() {
    let a = vec![with_head_rel("cats", "SBJ")];
    let b = vec![with_head_rel("cats", "OBJ")];
    assert_eq!(diff_positions(&a, &b, &[Layer::HeadRel]).unwrap(), vec![0]);
    let lines = render_diff(&a, &b, &[Layer::HeadRel], &[Layer::Form]);
    assert_eq!(lines.len(), 1);
    assert_eq!(plain(&lines[0]), "1\tcats\tSBJ\tOBJ");
    let cells = diff_row(&a[0], &b[0], &[Layer::HeadRel], &[Layer::Form]);
    let flags: Vec<bool> = cells.iter().map(|c| c.emphasized).collect();
    assert_eq!(flags, vec![false, true, true]);
    let report = compare_pair(&a, &b, &[Layer::HeadRel], &[Layer::Form]).unwrap();
    assert_eq!(report.len(), 2);
    assert_eq!(plain(&report[0]), "1\tcats\tSBJ\tOBJ");
    assert_eq!(report[1], "");
}

#[test]
fn diff_fails_on_length_mismatch() {
    let a = sentence(&["a", "b", "c"]);
    let b = sentence(&["a", "b"]);
    assert_eq!(diff_positions(&a, &b, &[Layer::Form]), Err(LengthMismatch { left: 3, right: 2 }));
    assert_eq!(diff_positions(&a, &b, &[Layer::Lemma, Layer::Pos]), Err(LengthMismatch { left: 3, right: 2 }));
    assert!(compare_pair(&a, &b, &[Layer::Form], &[]).is_err());
}

#[test]
fn diff_treats_absent_and_present_as_different() {
    let a = sentence(&["x", "y", "z"]);
    let mut b = sentence(&["x", "y", "z"]);
    b[1].lemma = Some("y".to_string());
    b[2].form = None;
    assert_eq!(diff_positions(&a, &b, &[Layer::Lemma]).unwrap(), vec![1]);
    assert_eq!(diff_positions(&a, &b, &[Layer::Form]).unwrap(), vec![2]);
    assert_eq!(diff_positions(&a, &b, &[Layer::Form, Layer::Lemma]).unwrap(), vec![1, 2]);
    assert_eq!(diff_positions(&a, &b, &[Layer::Lemma, Layer::Form]).unwrap(), vec![1, 2]);
    assert_eq!(diff_positions(&a, &a, &[Layer::Lemma, Layer::Form]).unwrap(), Vec::<usize>::new());
}

#[test]
fn diff_is_case_sensitive() {
    let a = sentence(&["Dog"]);
    let b = sentence(&["dog"]);
    assert_eq!(diff_positions(&a, &b, &[Layer::Form]).unwrap(), vec![0]);
}

#[test]
fn render_shows_absent_values_as_underscore() {
    let a = vec![token("a"), token("b")];
    let mut b = vec![token("a"), token("b")];
    b[1].pos = Some("NN".to_string());
    let lines = render_diff(&a, &b, &[Layer::Pos], &[Layer::Form, Layer::Lemma]);
    assert_eq!(lines.len(), 2);
    assert_eq!(plain(&lines[0]), "1\ta\t_\t_\t_");
    assert_eq!(plain(&lines[1]), "2\tb\t_\t_\tNN");
    assert_eq!(lines[0], "1\ta\t_\t_\t_");
}

#[test]
fn emphasized_cells_are_red_when_colouring_is_on() {
    colored::control::set_override(true);
    let cell = Cell { text: "SBJ".to_string(), emphasized: true };
    assert_eq!(render_cell(&cell), "\x1b[31mSBJ\x1b[0m");
    let quiet = Cell { text: "SBJ".to_string(), emphasized: false };
    assert_eq!(render_cell(&quiet), "SBJ");
}

#[test]
fn emphasized_cells_are_plain_when_colouring_is_off() {
    colored::control::set_override(false);
    let cell = Cell { text: "OBJ".to_string(), emphasized: true };
    assert_eq!(render_cell(&cell), "OBJ");
}

#[test]
fn grep_keeps_matching_sentence_unchanged() {
    let pattern = Pattern::new("^d").unwrap();
    let s = sentence(&["The", "dog", "barks"]);
    let kept = grep_sentence(s.clone(), Layer::Form, &pattern, None).unwrap();
    let forms: Vec<Option<String>> = kept.iter().map(|t| t.form.clone()).collect();
    assert_eq!(forms, vec![Some("The".to_string()), Some("dog".to_string()), Some("barks".to_string())]);
    assert!(kept.iter().all(|t| t.features.is_none()));
    assert_eq!(match_positions(&s, Layer::Form, &pattern), vec![1]);
}

#[test]
fn grep_drops_sentence_without_match() {
    let pattern = Pattern::new("^d").unwrap();
    let s = sentence(&["The", "cat", "sleeps"]);
    assert!(grep_sentence(s.clone(), Layer::Form, &pattern, None).is_none());
    assert!(!sentence_matches(&s, Layer::Form, &pattern));
}

#[test]
fn grep_marks_matching_tokens() {
    let pattern = Pattern::new("^d").unwrap();
    let s = sentence(&["The", "dog", "barks"]);
    let marked = grep_sentence(s, Layer::Form, &pattern, Some("MATCH")).unwrap();
    assert_eq!(marked[0].features, None);
    assert_eq!(marked[1].features, Some(vec![("MATCH".to_string(), None)]));
    assert_eq!(marked[2].features, None);
}

#[test]
fn grep_mark_mode_keeps_sentences_without_match() {
    let pattern = Pattern::new("^d").unwrap();
    let s = sentence(&["The", "cat", "sleeps"]);
    let kept = grep_sentence(s, Layer::Form, &pattern, Some("MATCH")).unwrap();
    assert_eq!(kept.len(), 3);
    assert!(kept.iter().all(|t| t.features.is_none()));
}

#[test]
fn absent_layer_never_matches() {
    let pattern = Pattern::new(".*").unwrap();
    let s = sentence(&["a", "b"]);
    assert_eq!(Layer::Lemma.value(&s[0]), None);
    assert_eq!(match_positions(&s, Layer::Lemma, &pattern), Vec::<usize>::new());
    assert_eq!(match_positions(&s, Layer::Form, &pattern), vec![0, 1]);
    let mut t = token("x");
    t.lemma = Some(String::new());
    assert_eq!(match_positions(&[t], Layer::Lemma, &pattern), vec![0]);
}

#[test]
fn pattern_is_unanchored_and_case_sensitive() {
    let pattern = Pattern::new("og").unwrap();
    assert!(pattern.is_match("dog"));
    assert!(!pattern.is_match("DOG"));
    assert_eq!(pattern.as_str(), "og");
}

#[test]
fn invalid_pattern_is_rejected() {
    let err = Pattern::new("(").err().unwrap();
    assert_eq!(err.pattern, "(");
    assert!(!err.message.is_empty());
}

#[test]
fn annotate_keeps_other_features_and_is_idempotent() {
    let mut t = token("dog");
    t.features = Some(vec![("num".to_string(), Some("sg".to_string())), ("case".to_string(), Some("nom".to_string()))]);
    let mut s = vec![t, token("barks")];
    annotate(&mut s, &[0], "MATCH");
    let once = s.clone();
    assert_eq!(
        once[0].features,
        Some(vec![
            ("num".to_string(), Some("sg".to_string())),
            ("case".to_string(), Some("nom".to_string())),
            ("MATCH".to_string(), None),
        ])
    );
    assert_eq!(once[1].features, None);
    annotate(&mut s, &[0], "MATCH");
    assert_eq!(s[0].features, once[0].features);
    assert_eq!(s[1].features, once[1].features);
}

#[test]
fn annotate_clears_value_of_existing_marker() {
    let mut t = token("dog");
    t.features = Some(vec![("MATCH".to_string(), Some("old".to_string())), ("num".to_string(), Some("sg".to_string()))]);
    mark_token(&mut t, "MATCH");
    assert_eq!(
        t.features,
        Some(vec![("MATCH".to_string(), None), ("num".to_string(), Some("sg".to_string()))])
    );
}

#[test]
fn annotate_ignores_duplicates_and_out_of_range_positions() {
    let mut s = sentence(&["a", "b"]);
    annotate(&mut s, &[1, 1, 7], "M");
    assert_eq!(s[0].features, None);
    assert_eq!(s[1].features, Some(vec![("M".to_string(), None)]));
}

#[test]
fn apply_matches_filters_or_marks() {
    let s = sentence(&["a", "b"]);
    assert!(apply_matches(s.clone(), &[], None).is_none());
    assert_eq!(apply_matches(s.clone(), &[0], None).unwrap().len(), 2);
    let marked = apply_matches(s, &[0], Some("F")).unwrap();
    assert_eq!(marked[0].features, Some(vec![("F".to_string(), None)]));
}

#[test]
fn positions_are_ascending() {
    assert_eq!(positions_where(&[false, true, true, false, true]), vec![1, 2, 4]);
    assert_eq!(positions_where(&[]), Vec::<usize>::new());
}

#[test]
fn registry_resolves_every_layer() {
    assert_eq!(resolve("form").unwrap(), Layer::Form);
    assert_eq!(resolve("lemma").unwrap(), Layer::Lemma);
    assert_eq!(resolve("cpos").unwrap(), Layer::CPos);
    assert_eq!(resolve("pos").unwrap(), Layer::Pos);
    assert_eq!(resolve("headrel").unwrap(), Layer::HeadRel);
    assert_eq!(resolve("pheadrel").unwrap(), Layer::PHeadRel);
    for l in [Layer::Form, Layer::Lemma, Layer::CPos, Layer::Pos, Layer::HeadRel, Layer::PHeadRel] {
        assert_eq!(resolve(l.name()).unwrap(), l);
    }
}

#[test]
fn registry_rejects_unknown_names() {
    assert_eq!(resolve("Form").err().unwrap().name, "Form");
    assert_eq!(resolve("features").err().unwrap().name, "features");
    assert_eq!(resolve("").err().unwrap().name, "");
}

#[test]
fn layer_lists_parse_with_default() {
    assert_eq!(parse_layers(None, vec![Layer::HeadRel]).unwrap(), vec![Layer::HeadRel]);
    assert_eq!(parse_layers(Some("form,pos"), vec![]).unwrap(), vec![Layer::Form, Layer::Pos]);
    assert_eq!(parse_layers(Some("lemma,bogus,other"), vec![]).err().unwrap().name, "bogus");
    assert_eq!(parse_layers(Some("form,"), vec![]).err().unwrap().name, "");
}

#[test]
fn accessors_read_their_layer() {
    let mut t = token("f");
    t.lemma = Some("l".to_string());
    t.cpos = Some("c".to_string());
    t.pos = Some("p".to_string());
    t.head_rel = Some("h".to_string());
    t.p_head_rel = Some("ph".to_string());
    assert_eq!(Layer::Form.value(&t), Some("f"));
    assert_eq!(Layer::Lemma.value(&t), Some("l"));
    assert_eq!(Layer::CPos.value(&t), Some("c"));
    assert_eq!(Layer::Pos.value(&t), Some("p"));
    assert_eq!(Layer::HeadRel.value(&t), Some("h"));
    assert_eq!(Layer::PHeadRel.value(&t), Some("ph"));
}

#[test]
fn text_helpers() {
    assert_eq!(to_decimal(0), "0");
    assert_eq!(to_decimal(7), "7");
    assert_eq!(to_decimal(1204), "1204");
    assert_eq!(join_tabs(&["a".to_string(), "b".to_string(), "".to_string()]), "a\tb\t");
    assert_eq!(join_tabs(&[]), "");
    assert_eq!(split_commas("a,,b"), vec!["a".to_string(), "".to_string(), "b".to_string()]);
    assert_eq!(split_commas(""), vec!["".to_string()]);
}
