use ragger_api::explanations::encode_explanations;
use ragger_api::models::Word;
use ragger_api::supervisor::{
    read_confirmation, select_reviewable, Confirmation, ReviewStep, StatusUpdate, Supervisable,
    Supervisor,
};

fn word(id: i32, name: &str, explanations: &[&str], status: i32) -> Word {
    let values: Vec<String> = explanations.iter().map(|s| s.to_string()).collect();
    Word { id, name: name.to_string(), exp_cn: encode_explanations(&values), status }
}

fn words() -> Vec<Word> {
    vec![
        word(1, "hello", &["你好"], 0),
        word(2, "world", &["世界"], 1),
        word(3, "old", &["旧"], -1),
        word(4, "cat", &["猫"], 2),
        word(5, "dog", &["狗", "犬"], 3),
        word(6, "gone", &["去"], -1),
    ]
}

fn session(tasks: Vec<Word>) -> Supervisor {
    let picks: Vec<usize> = (0..tasks.len()).collect();
    Supervisor::with_sample(tasks, picks)
}

#[test]
fn select_reviewable_keeps_non_negative_statuses_in_order() {
    let kept = select_reviewable(&words());
    let ids: Vec<i32> = kept.iter().map(|w| w.id).collect();
    assert_eq!(ids, vec![1, 2, 4, 5]);
}

#[test]
fn initialize_picks_half_of_the_reviewable_words() {
    let s = Supervisor::initialize(words(), None);
    assert!(s.is_reviewable());
    let mut seen = Vec::new();
    let mut s = s;
    loop {
        let w = s.get_current_word().unwrap().clone();
        assert!(w.status > -1);
        assert!(words().contains(&w));
        assert!(!seen.contains(&w.id));
        seen.push(w.id);
        if s.is_finished() {
            break;
        }
        s.forward();
    }
    assert_eq!(seen.len(), 2);
}

#[test]
fn initialize_respects_the_limit() {
    let mut s = Supervisor::initialize(words(), Some(1));
    assert!(s.is_reviewable());
    assert!(s.is_finished());
    s.forward();
    assert!(s.get_current_word().is_none());
    let s = Supervisor::initialize(words(), Some(0));
    assert!(!s.is_reviewable());
}

#[test]
fn initialize_rounds_half_down() {
    let mut five = words();
    five.push(word(7, "sun", &["太阳"], 0));
    let s = Supervisor::initialize(five, Some(100));
    assert!(s.is_reviewable());
    let mut s = s;
    let mut count = 1;
    while !s.is_finished() {
        s.forward();
        count += 1;
    }
    assert_eq!(count, 2);
    let one = vec![word(1, "hello", &["你好"], 0)];
    assert!(!Supervisor::initialize(one, None).is_reviewable());
    assert!(!Supervisor::initialize(Vec::new(), None).is_reviewable());
}

#[test]
fn with_sample_follows_the_picks() {
    let s = Supervisor::with_sample(words(), vec![4, 0]);
    assert_eq!(s.get_current_word().unwrap().id, 5);
    let mut s = s;
    s.forward();
    assert_eq!(s.get_current_word().unwrap().id, 1);
}

#[test]
fn exam_accepts_any_stored_explanation() {
    let s = session(vec![word(5, "dog", &["狗", "犬"], 3)]);
    assert!(s.exam("狗"));
    assert!(s.exam("犬"));
    assert!(!s.exam("猫"));
    assert!(!s.exam(""));
}

#[test]
fn exam_is_false_past_the_last_word() {
    let mut s = session(vec![word(1, "hello", &["你好"], 0)]);
    s.forward();
    assert!(!s.exam("你好"));
    assert_eq!(s.try_exam("你好"), Some(false));
}

#[test]
fn try_exam_reports_unreadable_explanations() {
    let bad = Word { id: 9, name: "bad".to_string(), exp_cn: "not json".to_string(), status: 0 };
    let s = session(vec![bad]);
    assert_eq!(s.try_exam("x"), None);
    let s = session(vec![word(1, "hello", &["你好"], 0)]);
    assert_eq!(s.try_exam("你好"), Some(true));
    assert_eq!(s.try_exam("好"), Some(false));
}

#[test]
fn forward_and_backward_move_the_cursor() {
    let mut s = session(words());
    assert_eq!(s.get_current_word().unwrap().id, 1);
    s.forward();
    s.forward();
    assert_eq!(s.get_current_word().unwrap().id, 3);
    s.backward();
    assert_eq!(s.get_current_word().unwrap().id, 2);
}

#[test]
fn backward_undoes_forward() {
    let mut s = session(words());
    s.forward();
    let before = s.get_current_word().cloned();
    s.forward();
    s.backward();
    assert_eq!(s.get_current_word().cloned(), before);
}

#[test]
fn is_finished_only_on_the_last_word() {
    let mut s = session(vec![word(1, "a", &["甲"], 0), word(2, "b", &["乙"], 0)]);
    assert!(!s.is_finished());
    s.forward();
    assert!(s.is_finished());
    s.forward();
    assert!(!s.is_finished());
}

#[test]
fn is_reviewable_needs_a_word() {
    assert!(!session(Vec::new()).is_reviewable());
    assert!(session(vec![word(1, "a", &["甲"], 0)]).is_reviewable());
}

#[test]
fn set_word_reviewed_once_promotes_below_three() {
    let s = session(vec![word(4, "cat", &["猫"], 2)]);
    assert_eq!(s.set_word_reviewed_once(), StatusUpdate::Promote { id: 4 });
    let s = session(vec![word(1, "a", &["甲"], 0)]);
    assert_eq!(s.set_word_reviewed_once(), StatusUpdate::Promote { id: 1 });
}

#[test]
fn set_word_reviewed_once_retires_at_three() {
    let s = session(vec![word(5, "dog", &["狗"], 3)]);
    assert_eq!(s.set_word_reviewed_once(), StatusUpdate::Retire { id: 5 });
    let s = session(vec![word(8, "x", &["叉"], 7)]);
    assert_eq!(s.set_word_reviewed_once(), StatusUpdate::Retire { id: 8 });
}

#[test]
fn correct_answers_retire_a_new_word_after_four_reviews() {
    let mut status = 0;
    let mut reviews = 0;
    while status > -1 {
        let s = session(vec![word(1, "a", &["甲"], status)]);
        status = match s.set_word_reviewed_once() {
            StatusUpdate::Promote { .. } => status + 1,
            StatusUpdate::Retire { .. } => -1,
        };
        reviews += 1;
    }
    assert_eq!(reviews, 4);
    let retired = word(1, "a", &["甲"], status);
    assert!(select_reviewable(&vec![retired]).is_empty());
}

#[test]
fn read_confirmation_trims_the_reply() {
    assert_eq!(read_confirmation("Y\n"), Confirmation::Start);
    assert_eq!(read_confirmation("  Y \r\n"), Confirmation::Start);
    assert_eq!(read_confirmation("N\n"), Confirmation::Quit);
    assert_eq!(read_confirmation("y\n"), Confirmation::Ask);
    assert_eq!(read_confirmation("YES\n"), Confirmation::Ask);
    assert_eq!(read_confirmation(""), Confirmation::Ask);
}

#[test]
fn review_answer_exit_stops_without_moving() {
    let mut s = session(words());
    assert_eq!(s.review_answer("  _exit\n"), ReviewStep::Exit);
    assert_eq!(s.get_current_word().unwrap().id, 1);
}

#[test]
fn review_answer_checks_and_moves_on() {
    let mut s = session(vec![word(1, "hello", &["你好"], 0), word(5, "dog", &["狗", "犬"], 3)]);
    assert_eq!(
        s.review_answer("你好\n"),
        ReviewStep::Answered {
            correct: true,
            update: Some(StatusUpdate::Promote { id: 1 }),
            finished: false
        }
    );
    assert_eq!(s.get_current_word().unwrap().id, 5);
    assert_eq!(
        s.review_answer(" 猫 \n"),
        ReviewStep::Answered { correct: false, update: None, finished: true }
    );
    assert_eq!(s.get_current_word().unwrap().id, 5);
    assert_eq!(
        s.review_answer("犬"),
        ReviewStep::Answered {
            correct: true,
            update: Some(StatusUpdate::Retire { id: 5 }),
            finished: true
        }
    );
}

#[test]
fn review_answer_reports_unreadable_explanations() {
    let bad = Word { id: 9, name: "bad".to_string(), exp_cn: "[1, 2]".to_string(), status: 0 };
    let mut s = session(vec![bad, word(1, "a", &["甲"], 0)]);
    assert_eq!(s.review_answer("甲\n"), ReviewStep::Unreadable);
    assert_eq!(s.get_current_word().unwrap().id, 9);
}

#[test]
fn stored_explanations_are_accepted_on_review() {
    let values = vec!["问候".to_string(), "你好".to_string()];
    let stored = Word { id: 1, name: "hello".to_string(), exp_cn: encode_explanations(&values), status: 0 };
    let s = session(vec![stored]);
    for v in &values {
        assert!(s.exam(v));
    }
    assert!(!s.exam("hello"));
}

#[test]
fn session_asks_each_word_once_in_order() {
    let tasks = vec![word(1, "a", &["甲"], 0), word(2, "b", &["乙"], 1), word(4, "c", &["丙"], 2)];
    let mut s = session(tasks);
    let mut asked = Vec::new();
    loop {
        let current = s.get_current_word().unwrap().clone();
        asked.push(current.id);
        match s.review_answer("错\n") {
            ReviewStep::Answered { correct: false, update: None, finished } => {
                if finished {
                    break;
                }
            }
            other => panic!("unexpected step {:?}", other),
        }
    }
    assert_eq!(asked, vec![1, 2, 4]);
}

#[test]
fn exam_explanations_checks_the_list_read() {
    let s = session(vec![word(5, "dog", &["狗", "犬"], 3)]);
    let list = vec!["狗".to_string(), "犬".to_string()];
    assert!(s.exam_explanations(&list, "犬"));
    assert!(!s.exam_explanations(&list, "猫"));
    let mut s = s;
    s.forward();
    assert!(!s.exam_explanations(&list, "犬"));
}
