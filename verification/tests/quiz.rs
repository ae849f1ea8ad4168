use word_quiz::exercise::Exercise;
use word_quiz::question::Question;

#[test]
fn test_question_from_str() {
    println!("{:?}", Question::from_str("hello"));
}

#[test]
fn test_exercise_from_str() {
    println!(
        "{:?}",
        Exercise::from_str(
            "hello:哈喽\n        world:世界"
        )
    );
}

fn assert_options_well_formed(q: &Question) {
    assert_eq!(q.options.len(), 5);
    for i in 0..q.options.len() {
        for j in 0..q.options.len() {
            if i != j {
                assert_ne!(q.options[i], q.options[j], "duplicate option");
            }
        }
    }
    assert!(q.options.contains(&q.answer));
}

#[test]
fn answer_and_options_well_formed() {
    let q = Question::from_str("hello:greeting");
    assert_eq!(q.word, "hello");
    assert_eq!(q.answer.chars().count(), 1);
    let a = q.answer.chars().next().unwrap();
    assert!(a.is_ascii_lowercase());
    assert!("hello".contains(a));
    assert_options_well_formed(&q);
}

#[test]
fn check_accepts_current_answer() {
    let ex = Exercise::from_str("hello:hi\nworld:earth");
    let ans = ex.get().unwrap().answer.clone();
    assert!(ex.check(&ans));
}

#[test]
fn check_rejects_all_other_letters() {
    let ex = Exercise::from_str("hello:hi");
    let ans = ex.get().unwrap().answer.clone();
    let mut rejected = 0;
    for c in 'a'..='z' {
        let candidate = c.to_string();
        if candidate == ans {
            assert!(ex.check(&candidate));
        } else {
            assert!(!ex.check(&candidate));
            rejected += 1;
        }
    }
    assert_eq!(rejected, 25);
}

#[test]
fn advancing_n_times_exhausts() {
    let mut ex = Exercise::from_str("hello:hi\nworld:earth\nsun:star");
    let n = ex.get_questions().len();
    assert_eq!(n, 3);
    for step in 0..n {
        assert!(ex.get().is_some(), "question missing at step {}", step);
        ex.next();
    }
    assert!(ex.get().is_none());
    assert!(!ex.check("a"));
    ex.next();
    assert!(ex.get().is_none());
}

#[test]
fn advancing_n_minus_one_times_leaves_current() {
    let mut ex = Exercise::from_str("hello:hi\nworld:earth");
    ex.next();
    assert!(ex.get().is_some());
    assert_eq!(ex.get().unwrap().word, "world");
}

#[test]
fn load_two_lines_in_order() {
    let ex = Exercise::from_str("hello:meaning1\nworld:meaning2");
    let qs = ex.get_questions();
    assert_eq!(qs.len(), 2);
    assert_eq!(qs[0].word, "hello");
    assert_eq!(qs[1].word, "world");
}

#[test]
fn cat_example() {
    let q = Question::from_str("cat:动物");
    assert_eq!(q.options.len(), 5);
    assert_eq!(q.answer.chars().count(), 1);
    let a = q.answer.chars().next().unwrap();
    assert!(a == 'c' || a == 'a' || a == 't');
    assert!(q.question.ends_with(" :动物"));
    assert_options_well_formed(&q);
}

#[test]
fn thousand_builds_have_no_duplicate_options() {
    for _ in 0..1000 {
        let q = Question::from_str("cat:动物");
        assert_options_well_formed(&q);
    }
}

#[test]
fn line_without_colon_is_whole_word() {
    let q = Question::from_str("hello");
    assert_eq!(q.word, "hello");
    assert!(q.question.ends_with(" :"));
    assert_options_well_formed(&q);
}

#[test]
fn word_is_trimmed_and_lowercased() {
    let q = Question::from_str("  HeLLo : Greeting  ");
    assert_eq!(q.word, "hello");
    assert!(q.question.ends_with(" :Greeting"));
    let a = q.answer.chars().next().unwrap();
    assert!("hello".contains(a));
}

#[test]
fn word_without_letters_yields_empty_answer() {
    let q = Question::from_str("123:numbers");
    assert_eq!(q.answer, "");
    assert_eq!(q.question, "[ ]123 :numbers");
    assert_eq!(q.options.len(), 5);
    assert_eq!(q.options.iter().filter(|o| o.is_empty()).count(), 1);
    for o in q.options.iter() {
        if !o.is_empty() {
            assert_eq!(o.chars().count(), 1);
            assert!(o.chars().next().unwrap().is_ascii_lowercase());
        }
    }
}

#[test]
fn blank_marker_replaces_first_answer_occurrence() {
    let q = Question::from_str("aaa:triple");
    assert_eq!(q.answer, "a");
    assert_eq!(q.question, "[ ]aa :triple");
}

#[test]
fn empty_and_blank_lines_are_skipped() {
    let ex = Exercise::from_str("a:1\n\n   \nb:2\n");
    assert_eq!(ex.get_questions().len(), 2);
    assert_eq!(ex.get_questions()[0].word, "a");
    assert_eq!(ex.get_questions()[1].word, "b");
}

#[test]
fn single_letter_pool_forces_answer() {
    let q = Question::from_str("a:letter");
    assert_eq!(q.answer, "a");
    assert_eq!(q.question, "[ ] :letter");
}

#[test]
fn display_option_every_fifth_is_answer() {
    let q = Question::from_str("hello:hi");
    assert_eq!(q.display_option(4), q.answer);
    assert_eq!(q.display_option(9), q.answer);
    let shown = q.display_option(0);
    assert!(q.options.contains(&shown));
}

#[test]
fn audio_path_replaces_spaces() {
    let q = Question::from_str("ice cream:dessert");
    assert_eq!(q.word, "ice cream");
    assert_eq!(q.audio_path(), "audios/ice_cream_1.mp3");
}

#[test]
fn check_is_case_sensitive_on_lowercase_answer() {
    let ex = Exercise::from_str("hello:hi");
    let ans = ex.get().unwrap().answer.clone();
    assert!(ex.check(&ans));
    assert!(!ex.check(&ans.to_uppercase()));
}
