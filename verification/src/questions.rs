use vstd::prelude::*;

use rand::rngs::ThreadRng;

verus! {

broadcast use vstd::seq_lib::group_to_multiset_ensures;

/// A multiple-choice question; `correct_index` is 0-based into `options`.
#[derive(Debug, Clone)]
pub struct Question {
    pub id: u32,
    pub text: String,
    pub options: Vec<String>,
    pub correct_index: u8,
    pub category: String,
}

/// The questions a game can draw from.
#[derive(Debug, Clone)]
pub struct QuestionBank {
    pub questions: Vec<Question>,
}

/// A question as the Open Trivia Database delivers it.
#[derive(Debug, Clone)]
pub struct OpenTriviaQuestion {
    pub category: String,
    pub question_type: String,
    pub difficulty: String,
    pub question: String,
    pub correct_answer: String,
    pub incorrect_answers: Vec<String>,
}

/// A reply of the Open Trivia Database.
#[derive(Debug, Clone)]
pub struct OpenTriviaResponse {
    pub response_code: i32,
    pub results: Vec<OpenTriviaQuestion>,
}

/// Why a reply of the Open Trivia Database gives no questions.
#[derive(Debug, Clone, PartialEq, Eq, Structural)]
pub enum TriviaError {
    /// The database answered with this non-zero response code.
    ErrorCode(i32),
    /// The reply holds no questions.
    NoQuestions,
}

/// A question by its contents.
pub struct QuestionView {
    pub id: u32,
    pub text: Seq<char>,
    pub options: Seq<Seq<char>>,
    pub correct_index: u8,
    pub category: Seq<char>,
}

/// The contents of each string.
pub open spec fn texts(s: Seq<String>) -> Seq<Seq<char>> {
    s.map_values(|x: String| x@)
}

impl View for Question {
    type V = QuestionView;

    open spec fn view(&self) -> QuestionView {
        QuestionView {
            id: self.id,
            text: self.text@,
            options: texts(self.options@),
            correct_index: self.correct_index,
            category: self.category@,
        }
    }
}

#[verifier::external_type_specification]
#[verifier::external_body]
pub struct ExThreadRng(ThreadRng);

/// What `html_escape::decode_html_entities` makes of a text: the text with
/// its HTML character references decoded.
pub uninterp spec fn html_decoded(text: Seq<char>) -> Seq<char>;

/// Calls `html_escape::decode_html_entities`. Claimed: the result is the
/// named decoding of the argument, and a text without `&` comes back
/// unchanged (the crate's source returns it as is when it finds no `&`).
#[verifier::external_body]
fn decode_html(text: &str) -> (r: String)
    ensures
        r@ == html_decoded(text@),
        !text@.contains('&') ==> r@ == text@,
{
    html_escape::decode_html_entities(text).to_string()
}

/// Calls `rand::thread_rng`, the thread's random generator; nothing is
/// claimed of it.
#[verifier::external_body]
fn thread_rng() -> ThreadRng {
    rand::thread_rng()
}

/// Calls `rand::Rng::gen_range` over `0..=upper`. Claimed: the result lies
/// in that range; which value comes is left open, as it is random.
#[verifier::external_body]
fn random_index_upto(rng: &mut ThreadRng, upper: usize) -> (i: usize)
    ensures
        i <= upper,
{
    rand::Rng::gen_range(rng, 0..=upper)
}

/// Calls `rand::seq::SliceRandom::shuffle` on the items. Claimed: the same
/// items remain, each as often as before; their order is left open, as it
/// is random.
#[verifier::external_body]
fn shuffle<T>(rng: &mut ThreadRng, items: &mut Vec<T>)
    ensures
        final(items)@.to_multiset() == old(items)@.to_multiset(),
{
    rand::seq::SliceRandom::shuffle(items.as_mut_slice(), rng)
}

/// Reordering a sequence reorders its image under `f` the same way.
pub proof fn lemma_map_keeps_multiset<A, B>(s: Seq<A>, t: Seq<A>, f: spec_fn(A) -> B)
    requires
        s.to_multiset() == t.to_multiset(),
    ensures
        s.map_values(f).to_multiset() == t.map_values(f).to_multiset(),
    decreases s.len(),
{
    broadcast use vstd::seq_lib::to_multiset_build;
    broadcast use vstd::seq_lib::to_multiset_insert;
    broadcast use vstd::seq_lib::to_multiset_remove;
    broadcast use vstd::seq_lib::to_multiset_len;
    broadcast use vstd::seq_lib::to_multiset_contains;

    if s.len() == 0 {
        assert(t.to_multiset().len() == 0);
        assert(t.len() == 0);
        assert(s.map_values(f) =~= t.map_values(f));
    } else {
        let x = s.last();
        assert(s =~= s.drop_last().push(x));
        assert(s.to_multiset().count(x) > 0);
        assert(t.to_multiset().count(x) > 0);
        assert(t.contains(x));
        let i = choose|i: int| 0 <= i < t.len() && t[i] == x;
        let t0 = t.remove(i);
        assert(t0.to_multiset() == t.to_multiset().remove(x));
        assert(s.drop_last().to_multiset() == s.to_multiset().remove(x)) by {
            assert(s.to_multiset() == s.drop_last().to_multiset().insert(x));
        }
        lemma_map_keeps_multiset(s.drop_last(), t0, f);
        assert(s.map_values(f) =~= s.drop_last().map_values(f).push(f(x)));
        assert(t.map_values(f) =~= t0.map_values(f).insert(i, f(x)));
    }
}

/// The decoded answers of a delivered question: the wrong ones in order,
/// then the right one.
pub open spec fn decoded_answers(q: OpenTriviaQuestion) -> Seq<Seq<char>> {
    q.incorrect_answers@.map_values(|s: String| html_decoded(s@)).push(html_decoded(q.correct_answer@))
}

/// `index` is the first position of `answer` among `options`.
pub open spec fn first_position(options: Seq<Seq<char>>, answer: Seq<char>, index: int) -> bool {
    &&& 0 <= index < options.len()
    &&& options[index] == answer
    &&& forall|j: int| 0 <= j < index ==> options[j] != answer
}

/// `q` is the `idx`-th delivered question `t` made playable: numbered from
/// 1, text decoded, the decoded answers in some order, and the right answer
/// at its first position among them; texts without `&` stay as delivered.
pub open spec fn converted(q: Question, idx: int, t: OpenTriviaQuestion) -> bool {
    &&& q.id == idx + 1
    &&& q@.text == html_decoded(t.question@)
    &&& q@.category == t.category@
    &&& q@.options.to_multiset() == decoded_answers(t).to_multiset()
    &&& exists|p: int|
        first_position(q@.options, html_decoded(t.correct_answer@), p) && q.correct_index == p as u8
    &&& plain_texts_kept(t)
}

/// Texts without `&` decode to themselves: the question and each answer.
pub open spec fn plain_texts_kept(t: OpenTriviaQuestion) -> bool {
    &&& !t.question@.contains('&') ==> html_decoded(t.question@) == t.question@
    &&& !t.correct_answer@.contains('&') ==> html_decoded(t.correct_answer@) == t.correct_answer@
    &&& forall|i: int|
        0 <= i < t.incorrect_answers@.len() && !t.incorrect_answers@[i]@.contains('&')
            ==> html_decoded(#[trigger] t.incorrect_answers@[i]@) == t.incorrect_answers@[i]@
}

/// The question numbered `idx + 1` with these contents, the right answer
/// being the first option equal to `correct`.
pub fn assemble_question(
    idx: usize,
    text: String,
    options: Vec<String>,
    correct: &String,
    category: String,
) -> (q: Question)
    requires
        idx < u32::MAX,
        texts(options@).contains(correct@),
    ensures
        q.id == idx + 1,
        q.text == text,
        q.options == options,
        q.category == category,
        exists|p: int| first_position(texts(options@), correct@, p) && q.correct_index == p as u8,
{
    let n = options.len();
    let mut pos: usize = 0;
    while pos < n && options[pos] != *correct
        invariant
            n == options@.len(),
            pos <= n,
            texts(options@).contains(correct@),
            forall|j: int| 0 <= j < pos ==> options@[j]@ != correct@,
        decreases n - pos,
    {
        pos = pos + 1;
    }
    proof {
        if pos == n {
            let k = choose|k: int| 0 <= k < texts(options@).len() && texts(options@)[k] == correct@;
            assert(options@[k]@ == correct@);
        }
        assert(first_position(texts(options@), correct@, pos as int));
    }
    Question {
        id: (idx as u32) + 1,
        text,
        options,
        correct_index: pos as u8,
        category,
    }
}

/// The `idx`-th delivered question made playable: its text and answers
/// decoded, the right answer put at a random place, the answers shuffled,
/// and the right answer's position looked up.
pub fn question_from_trivia(idx: usize, t: OpenTriviaQuestion, rng: &mut ThreadRng) -> (q: Question)
    requires
        idx < u32::MAX,
    ensures
        converted(q, idx as int, t),
{
    let ghost gt = t;
    let text = decode_html(t.question.as_str());
    let correct = decode_html(t.correct_answer.as_str());
    let mut options: Vec<String> = Vec::new();
    let n = t.incorrect_answers.len();
    for i in 0..n
        invariant
            n == t.incorrect_answers@.len(),
            options@.len() == i,
            forall|j: int|
                0 <= j < i ==> #[trigger] options@[j]@ == html_decoded(t.incorrect_answers@[j]@),
            forall|j: int|
                0 <= j < i && !t.incorrect_answers@[j]@.contains('&') ==> html_decoded(
                    #[trigger] t.incorrect_answers@[j]@,
                ) == t.incorrect_answers@[j]@,
    {
        options.push(decode_html(t.incorrect_answers[i].as_str()));
    }
    let wrong = Ghost(options@);
    let at = random_index_upto(rng, options.len());
    options.insert(at, correct.clone());
    let inserted = Ghost(options@);
    shuffle(rng, &mut options);
    proof {
        let f = |x: String| x@;
        assert(wrong@.map_values(f) =~= t.incorrect_answers@.map_values(
            |s: String| html_decoded(s@),
        ));
        assert(inserted@ =~= wrong@.insert(at as int, correct));
        assert(inserted@.to_multiset() == wrong@.push(correct).to_multiset()) by {
            broadcast use vstd::seq_lib::to_multiset_insert;
            broadcast use vstd::seq_lib::to_multiset_build;
        }
        lemma_map_keeps_multiset(options@, wrong@.push(correct), f);
        assert(wrong@.push(correct).map_values(f) =~= decoded_answers(gt));
        assert(texts(options@).to_multiset().count(correct@) > 0) by {
            broadcast use vstd::seq_lib::to_multiset_build;
            assert(decoded_answers(gt).to_multiset() == decoded_answers(gt).drop_last().to_multiset().insert(correct@)) by {
                assert(decoded_answers(gt) =~= decoded_answers(gt).drop_last().push(correct@));
            }
        }
        broadcast use vstd::seq_lib::to_multiset_contains;
        assert(texts(options@).contains(correct@));
    }
    assemble_question(idx, text, options, &correct, t.category)
}

/// The positions `0..n` in order.
pub open spec fn positions(n: nat) -> Seq<usize> {
    Seq::new(n, |i: int| i as usize)
}

fn copy_strings(v: &Vec<String>) -> (r: Vec<String>)
    ensures
        r@ == v@,
{
    let mut r: Vec<String> = Vec::new();
    let n = v.len();
    for i in 0..n
        invariant
            n == v@.len(),
            r@.len() == i,
            forall|j: int| 0 <= j < i ==> r@[j] == v@[j],
    {
        r.push(v[i].clone());
    }
    assert(r@ =~= v@);
    r
}

fn copy_question(q: &Question) -> (r: Question)
    ensures
        r@ == q@,
{
    Question {
        id: q.id,
        text: q.text.clone(),
        options: copy_strings(&q.options),
        correct_index: q.correct_index,
        category: q.category.clone(),
    }
}

/// Items drawn from `bank` at distinct positions, `order[j]` for the `j`-th,
/// form a part of the bank: none is drawn more often than the bank holds it.
pub proof fn lemma_drawn_within_bank<A>(bank: Seq<A>, drawn: Seq<A>, order: Seq<usize>)
    requires
        drawn.len() <= order.len(),
        order.no_duplicates(),
        forall|j: int| 0 <= j < drawn.len() ==> (#[trigger] order[j]) < bank.len(),
        forall|j: int| 0 <= j < drawn.len() ==> #[trigger] drawn[j] == bank[order[j] as int],
    ensures
        drawn.to_multiset().subset_of(bank.to_multiset()),
    decreases drawn.len(),
{
    broadcast use vstd::multiset::group_multiset_axioms;
    broadcast use vstd::seq_lib::to_multiset_remove;

    if drawn.len() > 0 {
        let m = drawn.len() - 1;
        let t = order[m] as int;
        let rest_bank = bank.remove(t);
        let rest_order = Seq::new(
            m as nat,
            |j: int|
                if order[j] < order[m] {
                    order[j]
                } else {
                    (order[j] - 1) as usize
                },
        );
        let rest = drawn.drop_last();
        assert forall|j: int| 0 <= j < rest.len() implies (#[trigger] rest_order[j]) < rest_bank.len()
            && #[trigger] rest[j] == rest_bank[rest_order[j] as int] by {
            assert(order[j] != order[m]);
            assert(drawn[j] == bank[order[j] as int]);
        }
        assert forall|a: int, b: int| 0 <= a < rest_order.len() && 0 <= b < rest_order.len() && a != b
            implies rest_order[a] != rest_order[b] by {
            assert(order[a] != order[b]);
            assert(order[a] != order[m] && order[b] != order[m]);
        }
        assert(rest_order.no_duplicates());
        lemma_drawn_within_bank(rest_bank, rest, rest_order);
        assert(drawn =~= rest.push(bank[t]));
        assert(drawn.to_multiset() == rest.to_multiset().insert(bank[t]));
        assert(bank.to_multiset() == rest_bank.to_multiset().insert(bank[t]));
    }
}

impl QuestionBank {
    /// The first `count` questions (or all, if there are fewer) of a random
    /// ordering of the bank; no question of the bank is picked twice.
    pub fn select_questions(&self, count: usize) -> (picked: Vec<Question>)
        ensures
            picked@.len() == (if count < self.questions@.len() {
                count as int
            } else {
                self.questions@.len() as int
            }),
            exists|order: Seq<usize>|
                #![trigger order.to_multiset()]
                order.to_multiset() == positions(self.questions@.len()).to_multiset()
                    && order.no_duplicates() && forall|j: int|
                    0 <= j < picked@.len() ==> order[j] < self.questions@.len() && (#[trigger] picked@[j])@
                        == self.questions@[order[j] as int]@,
            picked@.map_values(|q: Question| q@).to_multiset().subset_of(
                self.questions@.map_values(|q: Question| q@).to_multiset(),
            ),
    {
        let n = self.questions.len();
        let mut order: Vec<usize> = Vec::new();
        for i in 0..n
            invariant
                n == self.questions@.len(),
                order@ == positions(i as nat),
        {
            order.push(i);
            assert(order@ =~= positions((i + 1) as nat));
        }
        let mut rng = thread_rng();
        shuffle(&mut rng, &mut order);
        proof {
            broadcast use vstd::seq_lib::to_multiset_len;
            assert(order@.to_multiset().len() == positions(n as nat).to_multiset().len());
            assert(positions(n as nat).no_duplicates());
            positions(n as nat).lemma_multiset_has_no_duplicates();
            order@.lemma_multiset_has_no_duplicates_conv();
            assert forall|k: int| 0 <= k < n implies #[trigger] order@[k] < n by {
                broadcast use vstd::seq_lib::to_multiset_contains;
                let at = order@[k];
                assert(order@.contains(at));
                assert(order@.to_multiset().count(at) > 0);
                assert(positions(n as nat).to_multiset().count(at) > 0);
                assert(positions(n as nat).contains(at));
                let w = choose|w: int| 0 <= w < n && positions(n as nat)[w] == at;
            }
        }
        let take = if count < n {
            count
        } else {
            n
        };
        let mut picked: Vec<Question> = Vec::new();
        let mut j: usize = 0;
        while j < take
            invariant
                take <= n,
                j <= take,
                n == self.questions@.len(),
                order@.len() == n,
                order@.to_multiset() == positions(n as nat).to_multiset(),
                order@.no_duplicates(),
                forall|k: int| 0 <= k < n ==> #[trigger] order@[k] < n,
                picked@.len() == j,
                forall|k: int|
                    0 <= k < j ==> order@[k] < n && (#[trigger] picked@[k])@
                        == self.questions@[order@[k] as int]@,
            decreases take - j,
        {
            let at = order[j];
            let q = copy_question(&self.questions[at]);
            picked.push(q);
            j = j + 1;
        }
        proof {
            lemma_drawn_within_bank(
                self.questions@.map_values(|q: Question| q@),
                picked@.map_values(|q: Question| q@),
                order@,
            );
        }
        picked
    }

    /// The questions of a reply of the Open Trivia Database, numbered from 1
    /// in the order delivered; refused when the database reports an error
    /// or delivers nothing.
    pub fn from_open_trivia(response: OpenTriviaResponse) -> (r: Result<QuestionBank, TriviaError>)
        requires
            response.results@.len() <= u32::MAX,
        ensures
            response.response_code != 0 ==> r == Err::<QuestionBank, TriviaError>(
                TriviaError::ErrorCode(response.response_code),
            ),
            response.response_code == 0 && response.results@.len() == 0 ==> r == Err::<
                QuestionBank,
                TriviaError,
            >(TriviaError::NoQuestions),
            response.response_code == 0 && response.results@.len() > 0 ==> (r matches Ok(bank)
                && bank.questions@.len() == response.results@.len() && forall|i: int|
                0 <= i < response.results@.len() ==> converted(
                #[trigger] bank.questions@[i],
                i,
                response.results@[i],
            )),
    {
        if response.response_code != 0 {
            return Err(TriviaError::ErrorCode(response.response_code));
        }
        if response.results.len() == 0 {
            return Err(TriviaError::NoQuestions);
        }
        let mut rng = thread_rng();
        let mut questions: Vec<Question> = Vec::new();
        let n = response.results.len();
        let ghost delivered = response.results@;
        let mut rest = response.results;
        for i in 0..n
            invariant
                n == delivered.len(),
                n <= u32::MAX,
                rest@ == delivered.skip(i as int),
                questions@.len() == i,
                forall|j: int| 0 <= j < i ==> converted(#[trigger] questions@[j], j, delivered[j]),
        {
            let t = rest.remove(0);
            assert(rest@ =~= delivered.skip(i + 1));
            let q = question_from_trivia(i, t, &mut rng);
            questions.push(q);
        }
        Ok(QuestionBank { questions })
    }
}

} // verus!
