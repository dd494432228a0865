//! What a page's scripts hand back to the browser: navigations, dialogs,
//! errors and the outcome of an event dispatch, and the event-name rule every
//! listener registration goes through.
use vstd::prelude::*;

use crate::chars::{lower_seq, lowercase, push_char, str_equal, substring, trim, trim_seq};

verus! {

/// Where a page's script asked to go.
#[derive(Clone, Debug, PartialEq)]
pub struct Navigation {
    pub url: String,
    /// `location.replace` rather than `location.assign`.
    pub replace: bool,
}

/// A dialog a script opened, for the host to show.
#[derive(Clone, Debug, PartialEq)]
pub struct Dialog {
    pub kind: DialogKind,
    pub message: String,
}

#[derive(Clone, Copy, Debug, PartialEq, Eq, Structural)]
pub enum DialogKind {
    Alert,
    Confirm,
    Prompt,
}

/// A script that failed, with enough context to show in a console.
#[derive(Clone, Debug, PartialEq, Eq)]
pub struct ScriptError {
    /// Which `<script>` it was, in document order, or `None` for `eval`.
    pub index: Option<usize>,
    pub message: String,
    /// Set when the failure was a resource limit rather than a thrown value, in
    /// which case the page was stopped rather than merely erroring.
    pub fatal: bool,
}

/// What an event dispatch changed.
#[derive(Clone, Debug, PartialEq, Eq)]
pub struct Dispatch {
    /// A listener called `preventDefault`, so the browser must not do whatever
    /// it was going to.
    pub default_prevented: bool,
    /// How many listeners ran, including inline `on…` attributes.
    pub listeners_run: usize,
    /// Listeners that threw.
    pub errors: Vec<ScriptError>,
}

impl Default for Dispatch {
    fn default() -> (r: Dispatch)
        ensures
            !r.default_prevented,
            r.listeners_run == 0,
            r.errors@.len() == 0,
    {
        Dispatch { default_prevented: false, listeners_run: 0, errors: Vec::new() }
    }
}

/// The decimal digits of `n`.
pub open spec fn decimal_seq(n: nat) -> Seq<char>
    decreases n,
{
    if n < 10 {
        seq![((n + 48) as u32) as char]
    } else {
        decimal_seq(n / 10).push((((n % 10) + 48) as u32) as char)
    }
}

/// The decimal digits of `n`, as `usize`'s `Display` writes them.
pub fn decimal(n: usize) -> (r: String)
    ensures
        r@ == decimal_seq(n as nat),
    decreases n,
{
    let digit: u8 = (n % 10) as u8 + 48;
    if n < 10 {
        let mut out = String::new();
        push_char(&mut out, digit as char);
        assert(out@ =~= decimal_seq(n as nat));
        out
    } else {
        let mut out = decimal(n / 10);
        push_char(&mut out, digit as char);
        out
    }
}

/// `script {index}: {message}`, or the message alone for `eval`.
pub open spec fn script_error_text(index: Option<usize>, message: Seq<char>) -> Seq<char> {
    match index {
        Some(i) => seq!['s', 'c', 'r', 'i', 'p', 't', ' '] + decimal_seq(i as nat) + seq![
            ':',
            ' ',
        ] + message,
        None => message,
    }
}

impl ScriptError {
    /// The error as a console shows it: `script {index}: {message}`, or the
    /// message alone for `eval`.
    pub fn describe(&self) -> (r: String)
        ensures
            r@ == script_error_text(self.index, self.message@),
    {
        match self.index {
            Some(index) => {
                let mut out = String::new();
                push_char(&mut out, 's');
                push_char(&mut out, 'c');
                push_char(&mut out, 'r');
                push_char(&mut out, 'i');
                push_char(&mut out, 'p');
                push_char(&mut out, 't');
                push_char(&mut out, ' ');
                let digits = decimal(index);
                out.append(digits.as_str());
                push_char(&mut out, ':');
                push_char(&mut out, ' ');
                out.append(self.message.as_str());
                assert(out@ =~= script_error_text(self.index, self.message@));
                out
            },
            None => self.message.clone(),
        }
    }
}

/// An event name with an `on` prefix stripped and lower-cased, so `onClick`,
/// `onclick` and `click` all name the same event.
pub open spec fn normalised_event(kind: Seq<char>) -> Seq<char> {
    let lower = lower_seq(kind);
    if lower.len() > 2 && lower[0] == 'o' && lower[1] == 'n' {
        lower.skip(2)
    } else {
        lower
    }
}

/// Strips an `on` prefix and lower-cases, so `onClick`, `onclick` and `click`
/// all name the same event.
pub fn normalise_event(kind: &str) -> (r: String)
    ensures
        r@ == normalised_event(kind@),
{
    let lower = lowercase(kind);
    let n = lower.unicode_len();
    if n > 2 && lower.get_char(0) == 'o' && lower.get_char(1) == 'n' {
        substring(lower.as_str(), 2, n)
    } else {
        lower
    }
}

/// `onX` and `X` name the same event, whatever their case, unless `X` itself
/// begins with `on` followed by more.
pub proof fn lemma_on_prefix_names_the_same_event(name: Seq<char>)
    requires
        name.len() > 0,
        !(name.len() > 2 && lower_seq(name)[0] == 'o' && lower_seq(name)[1] == 'n'),
    ensures
        normalised_event(seq!['o', 'n'] + name) == normalised_event(name),
{
    let prefixed = seq!['o', 'n'] + name;
    assert(lower_seq(prefixed).skip(2) =~= lower_seq(name));
    assert(lower_seq(prefixed)[0] == 'o');
    assert(lower_seq(prefixed)[1] == 'n');
}

/// Does a `<script>` with this `type` attribute hold JavaScript? Without
/// the attribute it does; with it, only when the type, trimmed and in lower
/// case, is empty, `text/javascript`, `application/javascript` or `module`.
/// Any other type marks data, not code.
pub open spec fn is_javascript_type(kind: Option<Seq<char>>) -> bool {
    match kind {
        None => true,
        Some(k) => {
            let k = lower_seq(trim_seq(k));
            k.len() == 0 || k == "text/javascript"@ || k == "application/javascript"@ || k == "module"@
        },
    }
}

/// Whether a `<script>` element with this `type` attribute is run.
pub fn runs_as_script(kind: Option<&str>) -> (r: bool)
    ensures
        r == is_javascript_type(
            match kind {
                Some(k) => Some(k@),
                None => None,
            },
        ),
{
    match kind {
        None => true,
        Some(kind) => {
            let trimmed = trim(kind);
            let lower = lowercase(trimmed.as_str());
            let k = lower.as_str();
            k.unicode_len() == 0 || str_equal(k, "text/javascript") || str_equal(k, "application/javascript")
                || str_equal(k, "module")
        },
    }
}

/// The number a string of decimal digits writes.
pub open spec fn decimal_value(s: Seq<char>) -> int
    decreases s.len(),
{
    if s.len() == 0 {
        0
    } else {
        decimal_value(s.drop_last()) * 10 + (s.last() as int - '0' as int)
    }
}

/// `decimal` writes `n` in base ten: only digits, no leading zero, and
/// reading them back gives `n`.
pub proof fn lemma_decimal_writes_the_number(n: nat)
    ensures
        decimal_value(decimal_seq(n)) == n,
        decimal_seq(n).len() > 0,
        forall|i: int| 0 <= i < decimal_seq(n).len() ==> '0' <= #[trigger] decimal_seq(n)[i] <= '9',
        decimal_seq(n).len() > 1 ==> decimal_seq(n)[0] != '0',
    decreases n,
{
    if n >= 10 {
        lemma_decimal_writes_the_number(n / 10);
        let s = decimal_seq(n);
        let front = decimal_seq(n / 10);
        assert(s.drop_last() =~= front);
        assert forall|i: int| 0 <= i < s.len() implies '0' <= #[trigger] s[i] <= '9' by {
            if i < front.len() {
                assert(s[i] == front[i]);
            }
        }
        assert(s[0] == front[0]);
        if n / 10 >= 10 {
            lemma_decimal_writes_the_number(n / 10 / 10);
            assert(front.len() == decimal_seq(n / 10 / 10).len() + 1);
        } else {
            assert(front[0] == (((n / 10) + 48) as u32) as char);
        }
        assert(s.last() == (((n % 10) + 48) as u32) as char);
        assert(s.last() as int == (n % 10) + 48);
        assert(n == (n / 10) * 10 + n % 10);
        assert('0' as int == 48);
        assert(decimal_value(s) == decimal_value(front) * 10 + (s.last() as int - '0' as int));
    } else {
        let s = decimal_seq(n);
        assert(s.drop_last() =~= Seq::<char>::empty());
        assert(s.last() as int == n + 48);
        assert('0' as int == 48);
        assert(decimal_value(s) == decimal_value(s.drop_last()) * 10 + (s.last() as int - '0' as int));
    }
}

/// A `<script>` without a `type`, or whose type is blank or names
/// JavaScript (`text/javascript`, `application/javascript`, `module`, in any
/// ASCII case and with white space around it), is run.
pub proof fn lemma_javascript_types_run(kind: Seq<char>)
    ensures
        is_javascript_type(None),
        lower_seq(trim_seq(kind)).len() == 0 ==> is_javascript_type(Some(kind)),
        lower_seq(trim_seq(kind)) == "text/javascript"@ ==> is_javascript_type(Some(kind)),
        lower_seq(trim_seq(kind)) == "application/javascript"@ ==> is_javascript_type(Some(kind)),
        lower_seq(trim_seq(kind)) == "module"@ ==> is_javascript_type(Some(kind)),
        lower_seq(trim_seq(kind)) == "application/json"@ ==> !is_javascript_type(Some(kind)),
        lower_seq(trim_seq(kind)) == "text/plain"@ ==> !is_javascript_type(Some(kind)),
{
    reveal_strlit("text/javascript");
    reveal_strlit("application/javascript");
    reveal_strlit("module");
    reveal_strlit("application/json");
    reveal_strlit("text/plain");
    assert("text/javascript"@.len() == 15);
    assert("application/javascript"@.len() == 22);
    assert("module"@.len() == 6);
    assert("application/json"@.len() == 16);
    assert("text/plain"@.len() == 10);
}

} // verus!
