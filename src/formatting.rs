//! Display text: which `%` escapes a task format may use, and the lines that
//! list categories and contexts.
use vstd::prelude::*;

verus! {

/// The letters that may follow `%` in a task format: box, description, id,
/// due date.
pub open spec fn task_letters() -> Seq<char> {
    seq!['b', 'd', 'i', 'D']
}

/// Every `%` that is followed by a character is followed by one of `letters`.
pub open spec fn escapes_valid(format: Seq<char>, letters: Seq<char>) -> bool {
    forall|i: int| 0 <= i < format.len() - 1 && #[trigger] format[i] == '%' ==> letters.contains(format[i + 1])
}

/// Whether `format` is a valid task format.
pub open spec fn valid_format(format: Seq<char>) -> bool {
    escapes_valid(format, task_letters())
}

/// Whether `format` uses only the task format's escapes.
pub fn valid_task_format(format: &String) -> (r: bool)
    ensures
        r == valid_format(format@),
{
    let letters = vec!['b', 'd', 'i', 'D'];
    assert(letters@ == task_letters());
    valid(format, letters)
}

/// Whether every `%` in `format` that is followed by a character is followed
/// by one of `valid_letters`.
pub fn valid(format: &String, valid_letters: Vec<char>) -> (r: bool)
    ensures
        r == escapes_valid(format@, valid_letters@),
{
    let s = format.as_str();
    let n = s.unicode_len();
    let mut follows_escape = false;
    let mut i: usize = 0;
    while i < n
        invariant
            n == s@.len(),
            s@ == format@,
            i <= n,
            follows_escape == (i > 0 && s@[i - 1] == '%'),
            forall|j: int| 0 <= j < i - 1 && #[trigger] s@[j] == '%' ==> valid_letters@.contains(s@[j + 1]),
        decreases n - i,
    {
        let character = s.get_char(i);
        if follows_escape {
            let mut found = false;
            let mut k: usize = 0;
            while k < valid_letters.len()
                invariant
                    k <= valid_letters@.len(),
                    found == (exists|m: int| 0 <= m < k && valid_letters@[m] == character),
                decreases valid_letters@.len() - k,
            {
                if valid_letters[k] == character {
                    found = true;
                }
                k = k + 1;
            }
            if !found {
                assert(s@[i - 1] == '%');
                assert(!valid_letters@.contains(s@[i as int]));
                return false;
            }
        }
        follows_escape = character == '%';
        i = i + 1;
    }
    true
}

/// The decimal digits of `n`.
pub open spec fn decimal(n: nat) -> Seq<char>
    decreases n,
{
    if n < 10 {
        seq![digit(n)]
    } else {
        decimal(n / 10).push(digit(n % 10))
    }
}

pub open spec fn digit(d: nat) -> char {
    (('0' as nat) + d) as char
}

/// `s` with every occurrence of `from` replaced by `to`, scanning from the
/// left and resuming after each replaced occurrence.
pub open spec fn replaced(s: Seq<char>, from: Seq<char>, to: Seq<char>) -> Seq<char>
    decreases s.len(),
{
    if from.len() == 0 || s.len() < from.len() {
        s
    } else if s.subrange(0, from.len() as int) == from {
        to + replaced(s.subrange(from.len() as int, s.len() as int), from, to)
    } else {
        seq![s[0]] + replaced(s.subrange(1, s.len() as int), from, to)
    }
}

/// The escape sequence that sets the style `code`.
pub open spec fn opening(code: Seq<char>) -> Seq<char> {
    seq!['\x1b', '['] + code + seq!['m']
}

/// The escape sequence that resets all styles.
pub open spec fn reset() -> Seq<char> {
    seq!['\x1b', '[', '0', 'm']
}

/// `r` shows `s`, which may itself hold styled parts, in the style `code`:
/// plain where the terminal takes no colour, else the style set, `s` with the
/// style set again after each reset inside it, and a final reset.
pub open spec fn shown_over(r: Seq<char>, code: Seq<char>, s: Seq<char>) -> bool {
    r == s || r == opening(code) + replaced(s, reset(), reset() + opening(code)) + reset()
}

/// `s` wrapped in the terminal escape sequence that sets the style `code` and
/// the one that resets it.
pub open spec fn styled(code: Seq<char>, s: Seq<char>) -> Seq<char> {
    seq!['\x1b', '['] + code + seq!['m'] + s + seq!['\x1b', '[', '0', 'm']
}

/// `r` shows `s` in the style `code`: styled, or plain where the terminal
/// takes no colour.
pub open spec fn shown(r: Seq<char>, code: Seq<char>, s: Seq<char>) -> bool {
    r == s || r == styled(code, s)
}

/// `s` holds no escape character.
pub open spec fn no_escape(s: Seq<char>) -> bool {
    forall|i: int| 0 <= i < s.len() ==> s[i] != '\x1b'
}

pub open spec fn bold_code() -> Seq<char> {
    seq!['1']
}

pub open spec fn italic_code() -> Seq<char> {
    seq!['3']
}

pub open spec fn grey_code() -> Seq<char> {
    seq!['9', '0']
}

/// The text that a category line shows after the name: "<n> tasks".
pub open spec fn count_text(n: nat) -> Seq<char> {
    decimal(n) + " tasks"@
}

/// Relies on std's `ToString` for `u64`: its decimal digits.
#[verifier::external_body]
pub(crate) fn decimal_text(n: u64) -> (r: String)
    ensures
        r@ == decimal(n as nat),
{
    n.to_string()
}

pub open spec fn red_code() -> Seq<char> {
    seq!['3', '1']
}

pub open spec fn bright_red_code() -> Seq<char> {
    seq!['9', '1']
}

pub open spec fn red_bold_code() -> Seq<char> {
    seq!['1', ';', '3', '1']
}

/// Relies on colored's `red` and `Display`: the text in red, or plain when
/// colours are off.
#[verifier::external_body]
pub(crate) fn red(s: &str) -> (r: String)
    ensures
        no_escape(s@) ==> shown(r@, red_code(), s@),
{
    colored::Colorize::red(s).to_string()
}

/// Relies on colored's `bright_red` and `Display`: the text in bright red, or
/// plain when colours are off.
#[verifier::external_body]
pub(crate) fn bright_red(s: &str) -> (r: String)
    ensures
        no_escape(s@) ==> shown(r@, bright_red_code(), s@),
{
    colored::Colorize::bright_red(s).to_string()
}

/// Relies on colored's `red`, then `bold` on the coloured string, and
/// `Display`: plain when colours are off; else the style `1;31`, the text
/// with that style set again after each reset sequence inside it (colored's
/// `escape_inner_reset_sequences`), and a reset.
#[verifier::external_body]
pub(crate) fn red_bold(s: &str) -> (r: String)
    ensures
        shown_over(r@, red_bold_code(), s@),
{
    colored::Colorize::bold(colored::Colorize::red(s)).to_string()
}

/// Relies on colored's `bold` and `Display`: the text in bold, or plain when
/// colours are off.
#[verifier::external_body]
pub(crate) fn bold(s: &str) -> (r: String)
    ensures
        no_escape(s@) ==> shown(r@, bold_code(), s@),
{
    colored::Colorize::bold(s).to_string()
}

/// Relies on colored's `italic` and `Display`: the text in italics, or plain
/// when colours are off.
#[verifier::external_body]
fn italic(s: &str) -> (r: String)
    ensures
        no_escape(s@) ==> shown(r@, italic_code(), s@),
{
    colored::Colorize::italic(s).to_string()
}

/// Relies on colored's `bright_black` and `Display`: the text in grey, or
/// plain when colours are off.
#[verifier::external_body]
pub(crate) fn bright_black(s: &str) -> (r: String)
    ensures
        no_escape(s@) ==> shown(r@, grey_code(), s@),
{
    colored::Colorize::bright_black(s).to_string()
}

pub(crate) proof fn lemma_decimal_no_escape(n: nat)
    ensures
        no_escape(decimal(n)),
    decreases n,
{
    if n >= 10 {
        lemma_decimal_no_escape(n / 10);
    }
}

/// The heading of a category in a listing: its name in bold, ": ", and the
/// number of its tasks in grey.
pub fn format_category(category: &String, ids: &Vec<usize>) -> (r: String)
    ensures
        no_escape(category@) ==> exists|name: Seq<char>, count: Seq<char>|
            #![trigger shown(name, bold_code(), category@), shown(count, grey_code(), count_text(ids@.len() as nat))]
            r@ == name + ": "@ + count
            && shown(name, bold_code(), category@)
            && shown(count, grey_code(), count_text(ids@.len() as nat)),
{
    let name = bold(category.as_str());
    let count = decimal_text(ids.len() as u64).concat(" tasks");
    proof {
        reveal_strlit(" tasks");
        lemma_decimal_no_escape(ids@.len() as nat);
        assert(no_escape(count@));
    }
    let grey = bright_black(count.as_str());
    let r = name.concat(": ").concat(grey.as_str());
    proof {
        assert(count@ == count_text(ids@.len() as nat));
        assert(shown(grey@, grey_code(), count_text(ids@.len() as nat)));
        if no_escape(category@) {
            assert(shown(name@, bold_code(), category@));
            assert(r@ == name@ + ": "@ + grey@);
        }
    }
    r
}

/// A context's line in a listing: the active one in italics between tildes,
/// any other as it is.
pub fn format_context(context: &String, is_current: bool) -> (r: String)
    ensures
        !is_current ==> r@ == context@,
        is_current && no_escape(context@) ==> exists|name: Seq<char>|
            #![trigger shown(name, italic_code(), context@)]
            r@ == "~"@ + name + "~"@ && shown(name, italic_code(), context@),
{
    if is_current {
        let name = italic(context.as_str());
        let r = String::from_str("~").concat(name.as_str()).concat("~");
        proof {
            if no_escape(context@) {
                assert(r@ == "~"@ + name@ + "~"@);
            }
        }
        r
    } else {
        context.clone()
    }
}

/// The text shown when there is nothing to list: "No tasks!" in grey.
pub fn format_nothing() -> (r: String)
    ensures
        shown(r@, grey_code(), "No tasks!"@),
{
    let text = "No tasks!";
    proof {
        reveal_strlit("No tasks!");
    }
    bright_black(text)
}

} // verus!
