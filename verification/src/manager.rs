//! Choosing among translation backends.
//!
//! The backends are services outside the library, so what they answer is not known in
//! advance. The manager asks them and records what each one did; the decisions it takes
//! on those answers are the verified functions of this module, stated over the recorded
//! values.
use vstd::prelude::*;

use crate::backend::{
    outcome_view, reports_available, reports_name, translates_to, TranslationBackend,
};
use crate::error::{describes, TranslationError};
use crate::text::same_text;

verus! {

/// What one backend did when the manager turned to it for a translation.
#[derive(Debug)]
pub enum Attempt {
    /// It reported itself unusable, so it was not asked to translate.
    Unavailable,
    /// It was asked and failed with `error`; `backend` is its name.
    Failed { backend: &'static str, error: TranslationError },
    /// It was asked and gave this translation.
    Translated(String),
}

/// The position of the first attempt at or after `k` that gave a translation.
pub open spec fn first_translated(attempts: Seq<Attempt>, k: int) -> Option<int>
    decreases attempts.len() - k,
{
    if k < 0 || k >= attempts.len() {
        None
    } else if attempts[k] is Translated {
        Some(k)
    } else {
        first_translated(attempts, k + 1)
    }
}

/// The answer a sequence of attempts settles on: the first translation given, or
/// `NoAvailableBackend` when none of them gave one.
pub open spec fn fallback(attempts: Seq<Attempt>) -> Result<Seq<char>, TranslationError> {
    match first_translated(attempts, 0) {
        Some(k) => match attempts[k] {
            Attempt::Translated(s) => Ok(s@),
            _ => Err(TranslationError::NoAvailableBackend),
        },
        None => Err(TranslationError::NoAvailableBackend),
    }
}

/// `attempts` is what asking `n` backends in order gives when the asking stops at the
/// first translation: one attempt per backend asked, none but the last a translation,
/// and the last a translation whenever not every backend was reached.
pub open spec fn asked_in_order(attempts: Seq<Attempt>, n: int) -> bool {
    &&& attempts.len() <= n
    &&& forall|k: int| 0 <= k < attempts.len() - 1 ==> !(#[trigger] attempts[k] is Translated)
    &&& attempts.len() < n ==> attempts.len() > 0 && attempts.last() is Translated
}

/// `a` is what the backend `b` did when the manager turned to it for a translation of
/// `text` from `from` into `to`: it said it was unusable; or it said it was usable, was
/// asked for exactly this translation and failed with the recorded error, under the
/// recorded name; or it said it was usable and gave the recorded translation.
pub open spec fn attempt_of(
    b: &Box<dyn TranslationBackend>,
    text: &str,
    from: &str,
    to: &str,
    a: Attempt,
) -> bool {
    match a {
        Attempt::Unavailable => reports_available(b, false),
        Attempt::Failed { backend, error } => {
            &&& reports_available(b, true)
            &&& reports_name(b, backend)
            &&& translates_to(b, text, from, to, Err(error))
        },
        Attempt::Translated(s) => reports_available(b, true) && translates_to(
            b,
            text,
            from,
            to,
            Ok(s),
        ),
    }
}

/// Each attempt is what the backend at its position did for this request.
pub open spec fn answered_by(
    bs: Seq<Box<dyn TranslationBackend>>,
    text: &str,
    from: &str,
    to: &str,
    attempts: Seq<Attempt>,
) -> bool {
    &&& attempts.len() <= bs.len()
    &&& forall|k: int|
        0 <= k < attempts.len() ==> #[trigger] attempt_of(&bs[k], text, from, to, attempts[k])
}

/// `statuses` holds, for each backend in order, a name and a usability that it reported.
pub open spec fn reported_statuses(
    bs: Seq<Box<dyn TranslationBackend>>,
    statuses: Seq<(&'static str, bool)>,
) -> bool {
    &&& statuses.len() == bs.len()
    &&& forall|k: int|
        0 <= k < bs.len() ==> reports_name(&bs[k], #[trigger] statuses[k].0) && reports_available(
            &bs[k],
            statuses[k].1,
        )
}

/// The line that reports a failed backend: `Backend {name} failed: {message}`.
pub open spec fn failure_line(name: Seq<char>, message: Seq<char>) -> Seq<char> {
    "Backend "@ + name + " failed: "@ + message
}

/// `line` reports that the backend `name` failed with `error`.
pub open spec fn reports_failure(name: Seq<char>, error: TranslationError, line: Seq<char>) -> bool {
    exists|d: Seq<char>| #[trigger] describes(error, d) && line == failure_line(name, d)
}

/// `lines` holds, in order, one report for each failed attempt, and nothing else.
pub open spec fn reports(attempts: Seq<Attempt>, lines: Seq<Seq<char>>) -> bool
    decreases attempts.len(),
{
    if attempts.len() == 0 {
        lines.len() == 0
    } else {
        match attempts.last() {
            Attempt::Failed { backend, error } => {
                &&& lines.len() > 0
                &&& reports_failure(backend@, error, lines.last())
                &&& reports(attempts.drop_last(), lines.drop_last())
            },
            _ => reports(attempts.drop_last(), lines),
        }
    }
}

/// The names of the usable backends, in order, from each backend's name and whether it
/// is usable.
pub open spec fn usable_names(statuses: Seq<(&'static str, bool)>) -> Seq<&'static str>
    decreases statuses.len(),
{
    if statuses.len() == 0 {
        seq![]
    } else if statuses.last().1 {
        usable_names(statuses.drop_last()).push(statuses.last().0)
    } else {
        usable_names(statuses.drop_last())
    }
}

/// The position of the first usable backend at or after `k` that has the given name.
pub open spec fn named_position(statuses: Seq<(&'static str, bool)>, name: Seq<char>, k: int) -> Option<
    int,
>
    decreases statuses.len() - k,
{
    if k < 0 || k >= statuses.len() {
        None
    } else if statuses[k].0@ == name && statuses[k].1 {
        Some(k)
    } else {
        named_position(statuses, name, k + 1)
    }
}

/// The list of usable backends is empty exactly when no backend is usable, that is,
/// exactly when no backend can be asked by `translate` or found by `translate_with`.
pub proof fn law_empty_list_means_no_usable_backend(statuses: Seq<(&'static str, bool)>)
    ensures
        usable_names(statuses).len() == 0 <==> forall|i: int|
            0 <= i < statuses.len() ==> !(#[trigger] statuses[i]).1,
        usable_names(statuses).len() == 0 <==> forall|name: Seq<char>|
            #[trigger] named_position(statuses, name, 0) is None,
    decreases statuses.len(),
{
    if statuses.len() > 0 {
        let init = statuses.drop_last();
        law_empty_list_means_no_usable_backend(init);
        assert forall|i: int| 0 <= i < init.len() implies init[i] == statuses[i] by {}
        if usable_names(statuses).len() == 0 {
            assert(!statuses.last().1);
            assert forall|i: int| 0 <= i < statuses.len() implies !(#[trigger] statuses[i]).1 by {
                if i < init.len() {
                    assert(!init[i].1);
                }
            }
            assert forall|name: Seq<char>| #[trigger]
                named_position(statuses, name, 0) is None by {
                lemma_named_position_none(statuses, name, 0);
            }
        } else {
            let i = lemma_usable_witness(statuses);
            let name = statuses[i].0@;
            lemma_named_position_some(statuses, name, 0, i);
        }
    }
}

/// Where some backend is usable, one of them is found at its position.
proof fn lemma_usable_witness(statuses: Seq<(&'static str, bool)>) -> (i: int)
    requires
        usable_names(statuses).len() > 0,
    ensures
        0 <= i < statuses.len(),
        statuses[i].1,
    decreases statuses.len(),
{
    if statuses.last().1 {
        statuses.len() - 1
    } else {
        let init = statuses.drop_last();
        let i = lemma_usable_witness(init);
        assert(init[i] == statuses[i]);
        i
    }
}

proof fn lemma_named_position_none(statuses: Seq<(&'static str, bool)>, name: Seq<char>, k: int)
    requires
        0 <= k,
        forall|i: int| 0 <= i < statuses.len() ==> !(#[trigger] statuses[i]).1,
    ensures
        named_position(statuses, name, k) is None,
    decreases statuses.len() - k,
{
    if k < statuses.len() {
        assert(!statuses[k].1);
        lemma_named_position_none(statuses, name, k + 1);
    }
}

proof fn lemma_named_position_some(
    statuses: Seq<(&'static str, bool)>,
    name: Seq<char>,
    k: int,
    i: int,
)
    requires
        0 <= k <= i < statuses.len(),
        statuses[i].1,
        statuses[i].0@ == name,
    ensures
        named_position(statuses, name, k) is Some,
    decreases i - k,
{
    if k < i && !(statuses[k].0@ == name && statuses[k].1) {
        lemma_named_position_some(statuses, name, k + 1, i);
    }
}

/// The answer that the recorded attempts settle on: the first translation, or
/// `NoAvailableBackend` when no attempt gave one.
pub fn settle(attempts: &Vec<Attempt>) -> (r: Result<String, TranslationError>)
    ensures
        outcome_view(r) == fallback(attempts@),
{
    let mut i: usize = 0;
    while i < attempts.len()
        invariant
            i <= attempts.len(),
            first_translated(attempts@, 0) == first_translated(attempts@, i as int),
        decreases attempts.len() - i,
    {
        if let Attempt::Translated(s) = &attempts[i] {
            return Ok(s.clone());
        }
        i = i + 1;
    }
    Err(TranslationError::NoAvailableBackend)
}

/// One line `Backend {name} failed: {message}` for each failed attempt, in order.
pub fn report_failures(attempts: &Vec<Attempt>) -> (r: Vec<String>)
    ensures
        reports(attempts@, r@.map_values(|l: String| l@)),
{
    let mut lines: Vec<String> = Vec::new();
    let mut i: usize = 0;
    while i < attempts.len()
        invariant
            i <= attempts.len(),
            reports(attempts@.take(i as int), lines@.map_values(|l: String| l@)),
        decreases attempts.len() - i,
    {
        let ghost before = lines@.map_values(|l: String| l@);
        assert(attempts@.take(i + 1).drop_last() =~= attempts@.take(i as int));
        if let Attempt::Failed { backend, error } = &attempts[i] {
            let message = error.describe();
            let mut line = String::from_str("Backend ");
            line.append(backend);
            line.append(" failed: ");
            line.append(message.as_str());
            assert(describes(*error, message@));
            assert(reports_failure(backend@, *error, line@));
            lines.push(line);
            assert(lines@.map_values(|l: String| l@) =~= before.push(line@));
            assert(before.push(line@).drop_last() =~= before);
        }
        i = i + 1;
    }
    assert(attempts@.take(attempts.len() as int) =~= attempts@);
    lines
}

/// The names of the usable backends, in order, from each backend's name and whether it
/// is usable.
pub fn usable_backend_names(statuses: &Vec<(&'static str, bool)>) -> (r: Vec<&'static str>)
    ensures
        r@ == usable_names(statuses@),
{
    let mut names: Vec<&'static str> = Vec::new();
    let mut i: usize = 0;
    while i < statuses.len()
        invariant
            i <= statuses.len(),
            names@ == usable_names(statuses@.take(i as int)),
        decreases statuses.len() - i,
    {
        assert(statuses@.take(i + 1).drop_last() =~= statuses@.take(i as int));
        let (name, usable) = statuses[i];
        if usable {
            names.push(name);
        }
        i = i + 1;
    }
    assert(statuses@.take(statuses.len() as int) =~= statuses@);
    names
}

/// The position of the first usable backend that has the given name.
pub fn find_named(statuses: &Vec<(&'static str, bool)>, name: &str) -> (r: Option<usize>)
    ensures
        match named_position(statuses@, name@, 0) {
            Some(k) => r == Some(k as usize),
            None => r is None,
        },
{
    let mut i: usize = 0;
    while i < statuses.len()
        invariant
            i <= statuses.len(),
            named_position(statuses@, name@, 0) == named_position(statuses@, name@, i as int),
        decreases statuses.len() - i,
    {
        let (n, usable) = statuses[i];
        if same_text(n, name) && usable {
            return Some(i);
        }
        i = i + 1;
    }
    None
}

fn ask_translation<B: TranslationBackend + ?Sized>(
    b: &Box<B>,
    text: &str,
    from: &str,
    to: &str,
) -> (r: Result<String, TranslationError>)
    ensures
        translates_to(b, text, from, to, r),
{
    b.translate(text, from, to)
}

fn ask_available<B: TranslationBackend + ?Sized>(b: &Box<B>) -> (r: bool)
    ensures
        reports_available(b, r),
{
    b.is_available()
}

fn ask_name<B: TranslationBackend + ?Sized>(b: &Box<B>) -> (r: &'static str)
    ensures
        reports_name(b, r),
{
    b.name()
}

/// Holds the backends in the order they were added and picks among them.
pub struct TranslationManager {
    backends: Vec<Box<dyn TranslationBackend>>,
}

impl Default for TranslationManager {
    fn default() -> (r: Self)
        ensures
            r.backends_view() == Seq::<Box<dyn TranslationBackend>>::empty(),
    {
        Self::new()
    }
}

impl TranslationManager {
    /// The backends, in the order they were added.
    pub closed spec fn backends_view(&self) -> Seq<Box<dyn TranslationBackend>> {
        self.backends@
    }

    /// A manager without backends.
    pub fn new() -> (r: Self)
        ensures
            r.backends_view() == Seq::<Box<dyn TranslationBackend>>::empty(),
    {
        Self { backends: Vec::new() }
    }

    /// Adds a backend after the ones already there.
    pub fn add_backend(&mut self, backend: Box<dyn TranslationBackend>)
        ensures
            final(self).backends_view() == old(self).backends_view().push(backend),
    {
        self.backends.push(backend);
    }

    /// Turns to the backends in order: an unusable one is passed over, a usable one is
    /// asked to translate, and the asking stops at the first translation. The result
    /// records what each backend reached did.
    pub fn attempts(&self, text: &str, from: &str, to: &str) -> (r: Vec<Attempt>)
        ensures
            asked_in_order(r@, self.backends_view().len() as int),
            answered_by(self.backends_view(), text, from, to, r@),
    {
        let mut out: Vec<Attempt> = Vec::new();
        let mut i: usize = 0;
        while i < self.backends.len()
            invariant
                i <= self.backends.len(),
                out@.len() == i,
                forall|k: int| 0 <= k < i ==> !(#[trigger] out@[k] is Translated),
                answered_by(self.backends@, text, from, to, out@),
            decreases self.backends.len() - i,
        {
            let backend = &self.backends[i];
            let ghost before = out@;
            if ask_available(backend) {
                match ask_translation(backend, text, from, to) {
                    Ok(result) => {
                        out.push(Attempt::Translated(result));
                        assert(out@[i as int] == Attempt::Translated(result));
                        assert(forall|k: int| 0 <= k < i ==> out@[k] == before[k]);
                        return out;
                    },
                    Err(error) => {
                        let name = ask_name(backend);
                        out.push(Attempt::Failed { backend: name, error });
                    },
                }
            } else {
                out.push(Attempt::Unavailable);
            }
            assert(forall|k: int| 0 <= k < i ==> out@[k] == before[k]);
            i = i + 1;
        }
        out
    }

    /// Each backend's name and whether it is usable, in order.
    pub fn statuses(&self) -> (r: Vec<(&'static str, bool)>)
        ensures
            r@.len() == self.backends_view().len(),
            reported_statuses(self.backends_view(), r@),
    {
        let mut out: Vec<(&'static str, bool)> = Vec::new();
        let mut i: usize = 0;
        while i < self.backends.len()
            invariant
                i <= self.backends.len(),
                out@.len() == i,
                forall|k: int|
                    0 <= k < i ==> reports_name(&self.backends@[k], #[trigger] out@[k].0)
                        && reports_available(&self.backends@[k], out@[k].1),
            decreases self.backends.len() - i,
        {
            let backend = &self.backends[i];
            let name = ask_name(backend);
            let usable = ask_available(backend);
            out.push((name, usable));
            i = i + 1;
        }
        out
    }

    /// Tries each usable backend in order and returns the first translation that
    /// succeeds; `NoAvailableBackend` when none is usable or every usable one fails.
    pub fn translate(&self, text: &str, from: &str, to: &str) -> (r: Result<
        String,
        TranslationError,
    >)
        ensures
            exists|a: Seq<Attempt>|
                #[trigger] asked_in_order(a, self.backends_view().len() as int) && outcome_view(r)
                    == fallback(a),
            exists|a: Seq<Attempt>|
                #[trigger] answered_by(self.backends_view(), text, from, to, a) && asked_in_order(
                    a,
                    self.backends_view().len() as int,
                ) && outcome_view(r) == fallback(a),
            r matches Err(e) ==> e == TranslationError::NoAvailableBackend,
            self.backends_view().len() == 0 ==> r matches Err(e),
    {
        let attempts = self.attempts(text, from, to);
        let r = settle(&attempts);
        assert(asked_in_order(attempts@, self.backends_view().len() as int));
        assert(answered_by(self.backends_view(), text, from, to, attempts@));
        r
    }

    /// The names of the usable backends, in order.
    pub fn list_available_backends(&self) -> (r: Vec<&'static str>)
        ensures
            exists|s: Seq<(&'static str, bool)>|
                s.len() == self.backends_view().len() && r@ == #[trigger] usable_names(s),
            exists|s: Seq<(&'static str, bool)>|
                #[trigger] reported_statuses(self.backends_view(), s) && r@ == usable_names(s),
    {
        let statuses = self.statuses();
        let r = usable_backend_names(&statuses);
        assert(r@ == usable_names(statuses@));
        assert(reported_statuses(self.backends_view(), statuses@));
        r
    }

    /// Translates with the first backend that has the given name and is usable;
    /// `NoAvailableBackend` when there is none.
    pub fn translate_with(&self, backend_name: &str, text: &str, from: &str, to: &str) -> (r:
        Result<String, TranslationError>)
        ensures
            exists|s: Seq<(&'static str, bool)>|
                s.len() == self.backends_view().len() && (#[trigger] named_position(
                    s,
                    backend_name@,
                    0,
                ) is None ==> (r matches Err(e) && e == TranslationError::NoAvailableBackend)),
            exists|s: Seq<(&'static str, bool)>|
                #[trigger] reported_statuses(self.backends_view(), s) && match named_position(
                    s,
                    backend_name@,
                    0,
                ) {
                    Some(j) => translates_to(&self.backends_view()[j], text, from, to, r),
                    None => r matches Err(e) && e == TranslationError::NoAvailableBackend,
                },
    {
        let statuses = self.statuses();
        let found = find_named(&statuses, backend_name);
        assert(named_position(statuses@, backend_name@, 0) is None ==> found is None);
        match found {
            Some(j) => {
                proof {
                    lemma_named_position_bound(statuses@, backend_name@, 0);
                }
                let r = ask_translation(&self.backends[j], text, from, to);
                assert(reported_statuses(self.backends_view(), statuses@));
                r
            },
            None => {
                assert(reported_statuses(self.backends_view(), statuses@));
                Err(TranslationError::NoAvailableBackend)
            },
        }
    }
}

proof fn lemma_named_position_bound(statuses: Seq<(&'static str, bool)>, name: Seq<char>, k: int)
    ensures
        named_position(statuses, name, k) matches Some(j) ==> k <= j < statuses.len()
            && statuses[j].0@ == name && statuses[j].1,
    decreases statuses.len() - k,
{
    if 0 <= k < statuses.len() && !(statuses[k].0@ == name && statuses[k].1) {
        lemma_named_position_bound(statuses, name, k + 1);
    }
}

} // verus!
