use rust_rush_trivia::questions::{
    assemble_question, question_from_trivia, OpenTriviaQuestion, OpenTriviaResponse, Question,
    QuestionBank, TriviaError,
};

fn trivia(question: &str, correct: &str, wrong: &[&str]) -> OpenTriviaQuestion {
    OpenTriviaQuestion {
        category: "General".to_string(),
        question_type: "multiple".to_string(),
        difficulty: "easy".to_string(),
        question: question.to_string(),
        correct_answer: correct.to_string(),
        incorrect_answers: wrong.iter().map(|s| s.to_string()).collect(),
    }
}

fn sorted(v: &[String]) -> Vec<String> {
    let mut v = v.to_vec();
    v.sort();
    v
}

#[test]
fn trivia_questions_are_decoded_and_shuffled() {
    let mut rng = rand::thread_rng();
    for _ in 0..20 {
        let t = trivia("Who said &quot;hello&quot;?", "Tom &amp; Jerry", &["Ann", "B&#39;s", "Cid"]);
        let q = question_from_trivia(4, t, &mut rng);
        assert_eq!(q.id, 5);
        assert_eq!(q.text, "Who said \"hello\"?");
        assert_eq!(q.category, "General");
        assert_eq!(q.options[q.correct_index as usize], "Tom & Jerry");
        assert_eq!(
            sorted(&q.options),
            sorted(&["Tom & Jerry".to_string(), "Ann".to_string(), "B's".to_string(), "Cid".to_string()])
        );
    }
}

#[test]
fn right_answer_is_found_at_first_match() {
    let q = assemble_question(
        0,
        "T".to_string(),
        vec!["x".to_string(), "y".to_string(), "y".to_string()],
        &"y".to_string(),
        "C".to_string(),
    );
    assert_eq!(q.id, 1);
    assert_eq!(q.correct_index, 1);
}

#[test]
fn trivia_reply_errors() {
    let r = QuestionBank::from_open_trivia(OpenTriviaResponse { response_code: 1, results: vec![] });
    assert_eq!(r.err(), Some(TriviaError::ErrorCode(1)));
    let r = QuestionBank::from_open_trivia(OpenTriviaResponse {
        response_code: 2,
        results: vec![trivia("q", "a", &["b"])],
    });
    assert_eq!(r.err(), Some(TriviaError::ErrorCode(2)));
    let r = QuestionBank::from_open_trivia(OpenTriviaResponse { response_code: 0, results: vec![] });
    assert_eq!(r.err(), Some(TriviaError::NoQuestions));
}

#[test]
fn trivia_reply_numbers_questions() {
    let r = QuestionBank::from_open_trivia(OpenTriviaResponse {
        response_code: 0,
        results: vec![trivia("one", "1", &["2", "3", "4"]), trivia("two", "2", &["1", "3", "4"])],
    });
    let bank = r.ok().unwrap();
    assert_eq!(bank.questions.len(), 2);
    assert_eq!(bank.questions[0].id, 1);
    assert_eq!(bank.questions[0].text, "one");
    assert_eq!(bank.questions[1].id, 2);
    assert_eq!(bank.questions[1].options[bank.questions[1].correct_index as usize], "2");
}

fn bank(n: u32) -> QuestionBank {
    QuestionBank {
        questions: (1..=n)
            .map(|i| Question {
                id: i,
                text: format!("q{}", i),
                options: vec!["a".to_string(), "b".to_string()],
                correct_index: 0,
                category: String::new(),
            })
            .collect(),
    }
}

#[test]
fn selection_takes_distinct_questions() {
    let b = bank(12);
    for count in [0usize, 1, 10, 12, 50] {
        let picked = b.select_questions(count);
        assert_eq!(picked.len(), count.min(12));
        let mut ids: Vec<u32> = picked.iter().map(|q| q.id).collect();
        ids.sort();
        ids.dedup();
        assert_eq!(ids.len(), picked.len());
        for q in &picked {
            assert_eq!(q.text, format!("q{}", q.id));
        }
    }
}

#[test]
fn selection_order_is_random() {
    let b = bank(12);
    let first: Vec<u32> = b.select_questions(12).iter().map(|q| q.id).collect();
    let differs = (0..20).any(|_| {
        let again: Vec<u32> = b.select_questions(12).iter().map(|q| q.id).collect();
        again != first
    });
    assert!(differs);
}

#[test]
fn right_answer_lands_in_varying_places() {
    let mut rng = rand::thread_rng();
    let mut places = std::collections::HashSet::new();
    for _ in 0..60 {
        let q = question_from_trivia(0, trivia("q", "right", &["w1", "w2", "w3"]), &mut rng);
        places.insert(q.correct_index);
    }
    assert!(places.len() > 1);
}
