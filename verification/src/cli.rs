use vstd::prelude::*;
use vstd::string::StrSliceExecFns;
use vstd::string::StringExecFns;
use crate::text::texts;

verus! {

/// How the scan of the values of one `-e` option ended.
#[derive(Debug, Clone, Copy, PartialEq, Eq, Structural)]
pub enum ScanEnd {
    /// The arguments ran out: no later option is looked at.
    OutOfArgs,
    /// An argument starting with `-` closed the list.
    NextOption,
    /// An empty argument was met, which cannot be scanned.
    EmptyArg,
}

/// `free` without its first entry equal to `word` (unchanged if none is).
pub open spec fn remove_first(free: Seq<Seq<char>>, word: Seq<char>) -> Seq<Seq<char>>
    decreases free.len(),
{
    if free.len() == 0 {
        free
    } else if free[0] == word {
        free.drop_first()
    } else {
        seq![free[0]] + remove_first(free.drop_first(), word)
    }
}

/// Scans the arguments from index `i` on: each one up to the next that
/// starts with `-` is an effect name, taken into `fx` and removed (once)
/// from the free words.
pub open spec fn scan(args: Seq<Seq<char>>, i: int, fx: Seq<Seq<char>>, free: Seq<Seq<char>>) -> (ScanEnd, Seq<Seq<char>>, Seq<Seq<char>>)
    decreases args.len() - i,
{
    if i < 0 || i >= args.len() {
        (ScanEnd::OutOfArgs, fx, free)
    } else if args[i].len() == 0 {
        (ScanEnd::EmptyArg, fx, free)
    } else if args[i][0] == '-' {
        (ScanEnd::NextOption, fx, free)
    } else {
        scan(args, i + 1, fx.push(args[i]), remove_first(free, args[i]))
    }
}

/// The effect names given after the `-e` options at `positions` (each an
/// index into the arguments after the program name), and the free words
/// left; `None` where the scan meets an empty argument.
pub open spec fn collect_effects(args: Seq<Seq<char>>, positions: Seq<usize>, fx: Seq<Seq<char>>, free: Seq<Seq<char>>) -> Option<(Seq<Seq<char>>, Seq<Seq<char>>)>
    decreases positions.len(),
{
    if positions.len() == 0 {
        Some((fx, free))
    } else {
        let r = scan(args, positions[0] + 2, fx, free);
        match r.0 {
            ScanEnd::OutOfArgs => Some((r.1, r.2)),
            ScanEnd::EmptyArg => None,
            ScanEnd::NextOption => collect_effects(args, positions.drop_first(), r.1, r.2),
        }
    }
}

/// Removing the first entry equal to `word`: when entry `k` is the first
/// such entry, it is that entry that goes; when none is, nothing goes.
pub proof fn lemma_remove_first_at(free: Seq<Seq<char>>, word: Seq<char>, k: int)
    requires
        0 <= k <= free.len(),
        forall|j: int| 0 <= j < k ==> free[j] != word,
    ensures
        k < free.len() && free[k] == word ==> remove_first(free, word) == free.remove(k),
        k == free.len() ==> remove_first(free, word) == free,
    decreases k,
{
    if k > 0 {
        lemma_remove_first_at(free.drop_first(), word, k - 1);
        if k < free.len() && free[k] == word {
            assert(seq![free[0]] + free.drop_first().remove(k - 1) =~= free.remove(k));
        }
        if k == free.len() {
            assert(seq![free[0]] + free.drop_first() =~= free);
        }
    } else {
        if free.len() > 0 && free[0] == word {
            assert(free.drop_first() =~= free.remove(0));
        }
    }
}

fn remove_first_occurrence(free: &mut Vec<String>, word: &String)
    ensures
        texts(final(free)@) == remove_first(texts(old(free)@), word@),
{
    let ghost f0 = texts(free@);
    let mut k: usize = 0;
    while k < free.len()
        invariant
            free@ == old(free)@,
            f0 == texts(free@),
            k <= free@.len(),
            forall|j: int| 0 <= j < k ==> f0[j] != word@,
        decreases free@.len() - k,
    {
        if free[k] == *word {
            proof {
                lemma_remove_first_at(f0, word@, k as int);
            }
            free.remove(k);
            assert(texts(free@) =~= f0.remove(k as int));
            return;
        }
        k = k + 1;
    }
    proof {
        lemma_remove_first_at(f0, word@, k as int);
    }
}

/// The values of an `-e` option start two arguments after its position
/// (the position counts from the argument after the program name): with a
/// single `-e` at `p`, one effect name `args[p + 2]` and an option right
/// after it, the names are just that one, removed once from the free words.
pub proof fn lemma_single_effect_argument(args: Seq<Seq<char>>, p: usize, free: Seq<Seq<char>>)
    requires
        p + 3 < args.len(),
        args[p + 2].len() > 0,
        args[p + 2][0] != '-',
        args[p + 3].len() > 0,
        args[p + 3][0] == '-',
    ensures
        collect_effects(args, seq![p], Seq::empty(), free) == Some((seq![args[p + 2]], remove_first(free, args[p + 2]))),
{
    let r1 = scan(args, p + 2, Seq::empty(), free);
    assert(r1 == scan(args, p + 3, Seq::<Seq<char>>::empty().push(args[p + 2]), remove_first(free, args[p + 2])));
    assert(Seq::<Seq<char>>::empty().push(args[p + 2]) =~= seq![args[p + 2]]);
    let fx1 = seq![args[p + 2]];
    let fr1 = remove_first(free, args[p + 2]);
    assert(scan(args, p + 3, fx1, fr1) == (ScanEnd::NextOption, fx1, fr1));
    assert(r1 == (ScanEnd::NextOption, fx1, fr1));
    assert(seq![p][0] == p);
    assert(seq![p].drop_first() =~= Seq::<usize>::empty());
    assert(collect_effects(args, Seq::<usize>::empty(), fx1, fr1) == Some((fx1, fr1)));
}

/// Collects the effect names given after each `-e` option (see
/// `collect_effects`), removing them from the free words; `None` where an
/// empty argument is met.
pub fn effect_arguments(args: &Vec<String>, positions: &Vec<usize>, free: &mut Vec<String>) -> (r: Option<Vec<String>>)
    requires
        forall|k: int| 0 <= k < positions@.len() ==> #[trigger] positions@[k] <= usize::MAX - 2,
    ensures
        match collect_effects(texts(args@), positions@, Seq::empty(), texts(old(free)@)) {
            Some(res) => r is Some && texts(r->0@) == res.0 && texts(final(free)@) == res.1,
            None => r is None,
        },
{
    let ghost a = texts(args@);
    let ghost goal = collect_effects(a, positions@, Seq::empty(), texts(old(free)@));
    let mut fx: Vec<String> = Vec::new();
    let mut pi: usize = 0;
    assert(positions@.skip(0) =~= positions@);
    assert(texts(fx@) =~= Seq::<Seq<char>>::empty());
    while pi < positions.len()
        invariant
            a == texts(args@),
            pi <= positions@.len(),
            forall|k: int| 0 <= k < positions@.len() ==> #[trigger] positions@[k] <= usize::MAX - 2,
            goal == collect_effects(a, positions@, Seq::empty(), texts(old(free)@)),
            goal == collect_effects(a, positions@.skip(pi as int), texts(fx@), texts(free@)),
        decreases positions@.len() - pi,
    {
        let p = positions[pi];
        let mut i: usize = p + 2;
        let ghost start = scan(a, p + 2, texts(fx@), texts(free@));
        assert(positions@.skip(pi as int)[0] == p);
        assert(positions@.skip(pi as int).drop_first() =~= positions@.skip(pi + 1));
        loop
            invariant
                a == texts(args@),
                goal == collect_effects(a, positions@, Seq::empty(), texts(old(free)@)),
                p + 2 <= i,
                start == scan(a, i as int, texts(fx@), texts(free@)),
                start.0 != ScanEnd::OutOfArgs ==> goal == match start.0 {
                    ScanEnd::EmptyArg => None,
                    _ => collect_effects(a, positions@.skip(pi + 1), start.1, start.2),
                },
                start.0 == ScanEnd::OutOfArgs ==> goal == Some((start.1, start.2)),
            ensures
                start.0 == ScanEnd::NextOption,
                start.1 == texts(fx@),
                start.2 == texts(free@),
            decreases args@.len() - i,
        {
            if i >= args.len() {
                assert(start == (ScanEnd::OutOfArgs, texts(fx@), texts(free@)));
                return Some(fx);
            }
            let effect = args[i].clone();
            let s = effect.as_str();
            if s.unicode_len() == 0 {
                assert(a[i as int] == s@);
                assert(start.0 == ScanEnd::EmptyArg);
                return None;
            }
            if s.get_char(0) == '-' {
                break;
            }
            remove_first_occurrence(free, &effect);
            let ghost fx_before = texts(fx@);
            fx.push(effect);
            assert(texts(fx@) =~= fx_before.push(a[i as int]));
            i = i + 1;
        }
        pi = pi + 1;
    }
    Some(fx)
}

/// The text shown for the free words: each word after a space.
pub open spec fn spaced(words: Seq<Seq<char>>) -> Seq<char>
    decreases words.len(),
{
    if words.len() == 0 {
        Seq::empty()
    } else {
        spaced(words.drop_last()) + seq![' '] + words.last()
    }
}

/// Joins the free words into the text to show (see `spaced`).
pub fn join_words(words: &Vec<String>) -> (text: String)
    ensures
        text@ == spaced(texts(words@)),
{
    let ghost ws = texts(words@);
    let mut text = String::new();
    let mut i: usize = 0;
    while i < words.len()
        invariant
            ws == texts(words@),
            i <= words@.len(),
            text@ == spaced(ws.take(i as int)),
        decreases words@.len() - i,
    {
        assert(ws.take(i + 1).drop_last() =~= ws.take(i as int));
        text.push(' ');
        text.append(words[i].as_str());
        i = i + 1;
    }
    assert(ws.take(words@.len() as int) =~= ws);
    text
}

/// A character that ends a sentence part and earns a word a longer pause.
pub open spec fn is_punctuation(c: char) -> bool {
    c == '.' || c == ',' || c == '!' || c == '?' || c == ';' || c == ':'
}

/// How long a word stays on screen at normal speed, in milliseconds:
/// 200, plus 60 for each byte of the word, plus 350 when it ends with
/// punctuation.
pub open spec fn word_time(word: &str) -> int {
    200 + 60 * word.len() + if is_punctuation(word@.last()) { 350int } else { 0int }
}

/// How long `word` stays on screen at normal speed (see `word_time`).
pub fn word_duration(word: &str) -> (ms: u128)
    requires
        word@.len() > 0,
    ensures
        ms == word_time(word),
        ms == 200 + 60 * word.len() + if word@.last() == '.' || word@.last() == ',' || word@.last() == '!'
            || word@.last() == '?' || word@.last() == ';' || word@.last() == ':' {
            350int
        } else {
            0int
        },
{
    let last = word.get_char(word.unicode_len() - 1);
    let pause: u128 = if last == '.' || last == ',' || last == '!' || last == '?' || last == ';' || last == ':' {
        350
    } else {
        0
    };
    200 + 60 * (word.len() as u128) + pause
}

/// What the text reader got from the thread that reads standard input.
pub enum Received {
    /// A line of input.
    Line(String),
    /// Nothing yet; the thread is still reading.
    Nothing,
    /// The thread has finished.
    Finished,
}

/// What to do next while gathering piped-in text.
#[derive(Debug, Clone, Copy, PartialEq, Eq, Structural)]
pub enum PipeAction {
    /// Ask again at once.
    Poll,
    /// Wait a little, then ask again.
    Sleep,
    /// Stop gathering and show the text.
    Show,
    /// Stop the program: nothing more will come and nothing is left to show.
    Quit,
}

/// One step of gathering piped-in text: a line is appended to `text`; with
/// nothing received, show what there is or wait for more; once the reader
/// has finished, show what there is or quit.
pub fn receive_step(text: &mut String, received: Received) -> (action: PipeAction)
    ensures
        match received {
            Received::Line(line) => final(text)@ == old(text)@ + line@ && action == PipeAction::Poll,
            Received::Nothing => final(text)@ == old(text)@
                && action == if old(text)@.len() == 0 { PipeAction::Sleep } else { PipeAction::Show },
            Received::Finished => final(text)@ == old(text)@
                && action == if old(text)@.len() == 0 { PipeAction::Quit } else { PipeAction::Show },
        },
{
    match received {
        Received::Line(line) => {
            text.append(line.as_str());
            PipeAction::Poll
        },
        Received::Nothing => {
            if text.as_str().unicode_len() == 0 {
                PipeAction::Sleep
            } else {
                PipeAction::Show
            }
        },
        Received::Finished => {
            if text.as_str().unicode_len() == 0 {
                PipeAction::Quit
            } else {
                PipeAction::Show
            }
        },
    }
}

/// What the program does once every word of the text has been shown.
#[derive(Debug, Clone, Copy, PartialEq, Eq, Structural)]
pub enum AfterText {
    /// Stop.
    Finish,
    /// Gather new piped-in text and show it.
    Refill,
    /// Show the same text again.
    Repeat,
}

/// Piped-in text is refilled; otherwise the text is repeated when looping
/// was asked for, and the program stops when it was not.
pub fn after_text(do_loop: bool, piped: bool) -> (r: AfterText)
    ensures
        r == if piped { AfterText::Refill } else if do_loop { AfterText::Repeat } else { AfterText::Finish },
{
    if !do_loop && !piped {
        AfterText::Finish
    } else if piped {
        AfterText::Refill
    } else {
        AfterText::Repeat
    }
}

} // verus!
