//! Commands typed in interactive mode, the answer to the browser prompt and
//! where to register from.
use crate::text::{
    chars_eq_str, chars_of, copy_chars, join_seq, lemma_words_of_joined_words, string_of,
    sub_chars, to_lowercase, trim_chars, trim_seq, unicode_lowercase, views, words_chars,
    words_seq,
};
use vstd::arithmetic::power::pow;
use vstd::prelude::*;

verus! {

broadcast use vstd::string::group_string_axioms;

/// A command of the browser handler.
#[derive(Debug)]
pub enum Commands {
    /// Add a new rule
    Add { pattern: String, browser: String, regex: bool },
    /// List all rules
    List,
    /// Remove a rule by pattern
    Remove { pattern: String },
    /// Import rules from a file
    Import { path: String },
    /// Export rules to a file
    Export { path: String },
    /// Install the application to a best-practice path for this platform
    Install,
    /// Register the application as the default browser handler
    Register,
    /// Unregister the application as the default browser handler
    Unregister,
    /// Uninstall the application from the best-practice path for this platform
    Uninstall,
    /// Open Windows Default Apps settings
    OpenSettings,
    /// Diagnose desktop URL handler resolution
    Doctor,
    /// Test URL handler invocation chain
    TestHandler { url: Option<String> },
}

/// Why an interactive command line was not understood.
#[derive(PartialEq, Eq, Structural, Debug, Clone, Copy)]
pub enum InteractiveParseError {
    NoCommand,
    AddUsage,
    RemoveUsage,
    ImportUsage,
    ExportUsage,
    Unknown,
}

impl InteractiveParseError {
    /// The message shown to the user.
    pub fn message(&self) -> (r: &'static str)
        ensures
            r@ == match *self {
                InteractiveParseError::NoCommand => "No command entered"@,
                InteractiveParseError::AddUsage => "Usage: add <pattern> <browser> [--regex]"@,
                InteractiveParseError::RemoveUsage => "Usage: remove <pattern>"@,
                InteractiveParseError::ImportUsage => "Usage: import <path>"@,
                InteractiveParseError::ExportUsage => "Usage: export <path>"@,
                InteractiveParseError::Unknown => "Unknown command. Type 'help' for commands."@,
            },
    {
        match self {
            InteractiveParseError::NoCommand => "No command entered",
            InteractiveParseError::AddUsage => "Usage: add <pattern> <browser> [--regex]",
            InteractiveParseError::RemoveUsage => "Usage: remove <pattern>",
            InteractiveParseError::ImportUsage => "Usage: import <path>",
            InteractiveParseError::ExportUsage => "Usage: export <path>",
            InteractiveParseError::Unknown => "Unknown command. Type 'help' for commands.",
        }
    }
}

/// The command a line of words asks for, as `parse_interactive_command`
/// reads it: the first word names the command and the following words are
/// its arguments; `add` takes a pattern and a browser and is a regex rule
/// when any word is `--regex`.
pub open spec fn parsed_as(words: Seq<Seq<char>>, r: Result<Commands, InteractiveParseError>) -> bool {
    if words.len() == 0 {
        r == Err::<Commands, InteractiveParseError>(InteractiveParseError::NoCommand)
    } else {
        let w = words[0];
        if w == "add"@ {
            if words.len() < 3 {
                r == Err::<Commands, InteractiveParseError>(InteractiveParseError::AddUsage)
            } else {
                r matches Ok(Commands::Add { pattern, browser, regex }) && pattern@ == words[1]
                    && browser@ == words[2] && regex == words.contains("--regex"@)
            }
        } else if w == "list"@ {
            r matches Ok(Commands::List)
        } else if w == "remove"@ {
            if words.len() < 2 {
                r == Err::<Commands, InteractiveParseError>(InteractiveParseError::RemoveUsage)
            } else {
                r matches Ok(Commands::Remove { pattern }) && pattern@ == words[1]
            }
        } else if w == "import"@ {
            if words.len() < 2 {
                r == Err::<Commands, InteractiveParseError>(InteractiveParseError::ImportUsage)
            } else {
                r matches Ok(Commands::Import { path }) && path@ == words[1]
            }
        } else if w == "export"@ {
            if words.len() < 2 {
                r == Err::<Commands, InteractiveParseError>(InteractiveParseError::ExportUsage)
            } else {
                r matches Ok(Commands::Export { path }) && path@ == words[1]
            }
        } else if w == "install"@ {
            r matches Ok(Commands::Install)
        } else if w == "register"@ {
            r matches Ok(Commands::Register)
        } else if w == "unregister"@ {
            r matches Ok(Commands::Unregister)
        } else if w == "uninstall"@ {
            r matches Ok(Commands::Uninstall)
        } else if w == "open-settings"@ {
            r matches Ok(Commands::OpenSettings)
        } else if w == "doctor"@ {
            r matches Ok(Commands::Doctor)
        } else if w == "test-handler"@ {
            r matches Ok(Commands::TestHandler { url }) && (if words.len() >= 2 {
                url matches Some(u) && u@ == words[1]
            } else {
                url is None
            })
        } else {
            r == Err::<Commands, InteractiveParseError>(InteractiveParseError::Unknown)
        }
    }
}

/// The word that names a command.
pub open spec fn command_word(c: Commands) -> Seq<char> {
    match c {
        Commands::Add { .. } => "add"@,
        Commands::List => "list"@,
        Commands::Remove { .. } => "remove"@,
        Commands::Import { .. } => "import"@,
        Commands::Export { .. } => "export"@,
        Commands::Install => "install"@,
        Commands::Register => "register"@,
        Commands::Unregister => "unregister"@,
        Commands::Uninstall => "uninstall"@,
        Commands::OpenSettings => "open-settings"@,
        Commands::Doctor => "doctor"@,
        Commands::TestHandler { .. } => "test-handler"@,
    }
}

/// A command line names the command of its first word, and its arguments
/// are the words that follow: a parsed command is the one the first word
/// names; `add` takes the next two words as pattern and browser and is a
/// regex rule when some word is `--regex`; `remove`, `import` and `export`
/// take the second word; `test-handler` takes the second word when there
/// is one. Each error says what went wrong: no word, too few words for
/// `add`, `remove`, `import` or `export`, or a first word that names no
/// command.
pub proof fn lemma_command_named_by_first_word(
    words: Seq<Seq<char>>,
    r: Result<Commands, InteractiveParseError>,
)
    requires
        parsed_as(words, r),
    ensures
        r matches Ok(c) ==> words.len() > 0 && words[0] == command_word(c),
        r matches Ok(Commands::Add { pattern, browser, regex }) ==> words.len() >= 3
            && pattern@ == words[1] && browser@ == words[2] && regex == words.contains(
            "--regex"@,
        ),
        r matches Ok(Commands::Remove { pattern }) ==> words.len() >= 2 && pattern@ == words[1],
        r matches Ok(Commands::Import { path }) ==> words.len() >= 2 && path@ == words[1],
        r matches Ok(Commands::Export { path }) ==> words.len() >= 2 && path@ == words[1],
        r matches Ok(Commands::TestHandler { url }) ==> (words.len() >= 2 ==> (url matches Some(u)
            && u@ == words[1])) && (words.len() < 2 ==> url is None),
        r == Err::<Commands, InteractiveParseError>(InteractiveParseError::NoCommand) <==> words.len()
            == 0,
        r == Err::<Commands, InteractiveParseError>(InteractiveParseError::AddUsage) ==> words[0]
            == "add"@ && words.len() < 3,
        r == Err::<Commands, InteractiveParseError>(InteractiveParseError::RemoveUsage)
            ==> words[0] == "remove"@ && words.len() < 2,
        r == Err::<Commands, InteractiveParseError>(InteractiveParseError::ImportUsage)
            ==> words[0] == "import"@ && words.len() < 2,
        r == Err::<Commands, InteractiveParseError>(InteractiveParseError::ExportUsage)
            ==> words[0] == "export"@ && words.len() < 2,
        r == Err::<Commands, InteractiveParseError>(InteractiveParseError::Unknown) ==> words.len()
            > 0 && forall|c: Commands| words[0] != #[trigger] command_word(c),
{
    reveal_strlit("add");
    reveal_strlit("list");
    reveal_strlit("remove");
    reveal_strlit("import");
    reveal_strlit("export");
    reveal_strlit("install");
    reveal_strlit("register");
    reveal_strlit("unregister");
    reveal_strlit("uninstall");
    reveal_strlit("open-settings");
    reveal_strlit("doctor");
    reveal_strlit("test-handler");
}

/// Whether some word is `word`.
fn has_word(words: &Vec<Vec<char>>, word: &str) -> (r: bool)
    ensures
        r == views(words@).contains(word@),
{
    let ghost ws = views(words@);
    let mut i: usize = 0;
    while i < words.len()
        invariant
            i <= words.len(),
            ws == views(words@),
            forall|j: int| 0 <= j < i ==> ws[j] != word@,
        decreases words.len() - i,
    {
        if chars_eq_str(&words[i], word) {
            assert(ws[i as int] == word@);
            return true;
        }
        i += 1;
    }
    false
}

/// Parses interactive input into a command.
pub fn parse_interactive_command(input: &str) -> (r: Result<Commands, InteractiveParseError>)
    ensures
        parsed_as(words_seq(input@), r),
        r matches Ok(c) ==> words_seq(input@).len() > 0 && words_seq(input@)[0] == command_word(c),
        r matches Ok(Commands::Import { path }) ==> path@ == words_seq(input@)[1],
        r matches Ok(Commands::Export { path }) ==> path@ == words_seq(input@)[1],
        r matches Ok(Commands::Remove { pattern }) ==> pattern@ == words_seq(input@)[1],
{
    let r = parse_words(input);
    proof {
        lemma_command_named_by_first_word(words_seq(input@), r);
    }
    r
}

/// Parses the words of interactive input into a command.
fn parse_words(input: &str) -> (r: Result<Commands, InteractiveParseError>)
    ensures
        parsed_as(words_seq(input@), r),
{
    let cs = chars_of(input);
    let parts = words_chars(&cs);
    let ghost ws = views(parts@);
    if parts.len() == 0 {
        return Err(InteractiveParseError::NoCommand);
    }
    assert(ws[0] == parts@[0]@);
    let first = &parts[0];
    if chars_eq_str(first, "add") {
        if parts.len() < 3 {
            return Err(InteractiveParseError::AddUsage);
        }
        let pattern = string_of(&parts[1]);
        let browser = string_of(&parts[2]);
        let regex = has_word(&parts, "--regex");
        assert(ws[1] == parts@[1]@ && ws[2] == parts@[2]@);
        Ok(Commands::Add { pattern, browser, regex })
    } else if chars_eq_str(first, "list") {
        Ok(Commands::List)
    } else if chars_eq_str(first, "remove") {
        if parts.len() < 2 {
            return Err(InteractiveParseError::RemoveUsage);
        }
        assert(ws[1] == parts@[1]@);
        Ok(Commands::Remove { pattern: string_of(&parts[1]) })
    } else if chars_eq_str(first, "import") {
        if parts.len() < 2 {
            return Err(InteractiveParseError::ImportUsage);
        }
        assert(ws[1] == parts@[1]@);
        Ok(Commands::Import { path: string_of(&parts[1]) })
    } else if chars_eq_str(first, "export") {
        if parts.len() < 2 {
            return Err(InteractiveParseError::ExportUsage);
        }
        assert(ws[1] == parts@[1]@);
        Ok(Commands::Export { path: string_of(&parts[1]) })
    } else if chars_eq_str(first, "install") {
        Ok(Commands::Install)
    } else if chars_eq_str(first, "register") {
        Ok(Commands::Register)
    } else if chars_eq_str(first, "unregister") {
        Ok(Commands::Unregister)
    } else if chars_eq_str(first, "uninstall") {
        Ok(Commands::Uninstall)
    } else if chars_eq_str(first, "open-settings") {
        Ok(Commands::OpenSettings)
    } else if chars_eq_str(first, "doctor") {
        Ok(Commands::Doctor)
    } else if chars_eq_str(first, "test-handler") {
        if parts.len() >= 2 {
            assert(ws[1] == parts@[1]@);
            Ok(Commands::TestHandler { url: Some(string_of(&parts[1])) })
        } else {
            Ok(Commands::TestHandler { url: None })
        }
    } else {
        Err(InteractiveParseError::Unknown)
    }
}

/// Only the whitespace-separated words of a command line matter: the line
/// re-written with single spaces between its words has the same words, so
/// `parse_interactive_command` gives the same command (or the same error)
/// for both.
pub proof fn lemma_parse_reads_words_only(input: Seq<char>)
    ensures
        words_seq(join_seq(words_seq(input), seq![' '])) == words_seq(input),
        forall|r: Result<Commands, InteractiveParseError>|
            parsed_as(words_seq(join_seq(words_seq(input), seq![' '])), r) == #[trigger] parsed_as(
                words_seq(input),
                r,
            ),
{
    lemma_words_of_joined_words(input);
}

// ---------------------------------------------------------------------------
// Unsigned decimal numbers
// ---------------------------------------------------------------------------

/// An ASCII decimal digit.
pub open spec fn is_digit(c: char) -> bool {
    '0' <= c <= '9'
}

/// Every character is a decimal digit.
pub open spec fn all_digits(s: Seq<char>) -> bool {
    forall|i: int| 0 <= i < s.len() ==> is_digit(#[trigger] s[i])
}

/// The value of a string of decimal digits.
pub open spec fn decimal_value(s: Seq<char>) -> nat
    decreases s.len(),
{
    if s.len() == 0 {
        0
    } else {
        decimal_value(s.drop_last()) * 10 + ((s.last() as u32) - ('0' as u32)) as nat
    }
}

/// The digits of a number text: without one leading `+`.
pub open spec fn digits_part(s: Seq<char>) -> Seq<char> {
    if s.len() > 0 && s[0] == '+' {
        s.drop_first()
    } else {
        s
    }
}

/// What `usize::from_str` gives: the value of an optional `+` followed by at
/// least one decimal digit, when it fits in `usize`.
pub open spec fn usize_value(s: Seq<char>) -> Option<nat> {
    let d = digits_part(s);
    if d.len() > 0 && all_digits(d) && decimal_value(d) <= usize::MAX {
        Some(decimal_value(d))
    } else {
        None
    }
}

/// A prefix of digits never has a larger value.
proof fn lemma_decimal_prefix(s: Seq<char>, i: int)
    requires
        0 <= i <= s.len(),
        all_digits(s),
    ensures
        decimal_value(s.take(i)) <= decimal_value(s),
    decreases s.len() - i,
{
    if i < s.len() {
        assert(s.take(i + 1).drop_last() =~= s.take(i));
        lemma_decimal_prefix(s, i + 1);
    } else {
        assert(s.take(i) =~= s);
    }
}

/// Decimal notation: a single digit is worth its digit, and digits `a`
/// followed by digits `b` are worth `a` times ten to the length of `b`,
/// plus `b`.
pub proof fn lemma_decimal_place_value(a: Seq<char>, b: Seq<char>)
    ensures
        b.len() == 1 && is_digit(b[0]) ==> decimal_value(b) == (b[0] as u32) - ('0' as u32),
        decimal_value(a + b) == decimal_value(a) * pow(10, b.len()) + decimal_value(b),
    decreases b.len(),
{
    if b.len() == 0 {
        assert(a + b =~= a);
        assert(pow(10, 0) == 1) by {
            reveal(pow);
        };
    } else {
        let b1 = b.drop_last();
        lemma_decimal_place_value(a, b1);
        assert((a + b).drop_last() =~= a + b1);
        assert((a + b).last() == b.last());
        assert(pow(10, b.len()) == 10 * pow(10, b1.len())) by {
            reveal(pow);
        };
        if b.len() == 1 {
            assert(b1 =~= Seq::<char>::empty());
            assert(b.last() == b[0]);
        }
        let x = decimal_value(a);
        let p = pow(10, b1.len());
        let y = decimal_value(b1);
        assert((x * p + y) * 10 == x * (10 * p) + y * 10) by (nonlinear_arith);
    }
}

/// `usize::from_str` on characters.
pub fn parse_usize(s: &[char]) -> (r: Option<usize>)
    ensures
        match r {
            Some(n) => usize_value(s@) == Some(n as nat),
            None => usize_value(s@) is None,
        },
{
    let start: usize = if s.len() > 0 && s[0] == '+' {
        1
    } else {
        0
    };
    let ghost d = digits_part(s@);
    assert(d =~= s@.skip(start as int));
    if start == s.len() {
        return None;
    }
    let mut acc: usize = 0;
    let mut i: usize = start;
    while i < s.len()
        invariant
            start <= i <= s.len(),
            d == s@.skip(start as int),
            d == digits_part(s@),
            acc == decimal_value(d.take(i - start)),
            forall|j: int| 0 <= j < i - start ==> is_digit(#[trigger] d[j]),
        decreases s.len() - i,
    {
        let c = s[i];
        assert(d[i - start] == c);
        if !('0' <= c && c <= '9') {
            assert(!is_digit(d[i - start]));
            return None;
        }
        assert(d.take(i - start + 1).drop_last() =~= d.take(i - start));
        assert(d.take(i - start + 1).last() == c);
        let digit: u128 = (c as u32 - '0' as u32) as u128;
        let next: u128 = acc as u128 * 10 + digit;
        assert(decimal_value(d.take(i - start + 1)) == acc * 10 + digit);
        if next > usize::MAX as u128 {
            proof {
                if all_digits(d) {
                    lemma_decimal_prefix(d, i - start + 1);
                }
            }
            return None;
        }
        acc = next as usize;
        i += 1;
    }
    assert(d.take(s.len() - start) =~= d);
    Some(acc)
}

// ---------------------------------------------------------------------------
// The answer to the browser prompt
// ---------------------------------------------------------------------------

/// What the user's answer to the browser prompt asks for.
#[derive(PartialEq, Eq, Structural, Debug, Clone, Copy)]
pub enum BrowserSelection {
    /// `cancel`.
    Cancel,
    /// Open in the browser at `index` (from 0); `save_rule` when the answer
    /// ended in `s`.
    Launch { index: usize, save_rule: bool },
    /// A number outside `1..=count`.
    InvalidNumber,
    /// Not a number.
    InvalidFormat,
}

/// The meaning of a (trimmed, lowercased) answer among `count` browsers:
/// `cancel`, or a number from 1 optionally followed by `s` to save a rule.
pub open spec fn selection_spec(sel: Seq<char>, count: nat) -> BrowserSelection {
    if sel == "cancel"@ {
        BrowserSelection::Cancel
    } else {
        let save = sel.len() > 0 && sel.last() == 's';
        let num = if save {
            sel.drop_last()
        } else {
            sel
        };
        match usize_value(num) {
            Some(n) => if 0 < n <= count {
                BrowserSelection::Launch { index: (n - 1) as usize, save_rule: save }
            } else {
                BrowserSelection::InvalidNumber
            },
            None => BrowserSelection::InvalidFormat,
        }
    }
}

/// Every listed browser can be chosen: among `count` browsers, the answer
/// `n` (decimal digits) with `1 <= n <= count` opens browser `n - 1`, and
/// `n` followed by `s` opens it and saves a rule.
pub proof fn lemma_every_listed_browser_selectable(digits: Seq<char>, count: usize)
    requires
        digits.len() > 0,
        all_digits(digits),
        1 <= decimal_value(digits) <= count,
    ensures
        selection_spec(digits, count as nat) == (BrowserSelection::Launch {
            index: (decimal_value(digits) - 1) as usize,
            save_rule: false,
        }),
        selection_spec(digits.push('s'), count as nat) == (BrowserSelection::Launch {
            index: (decimal_value(digits) - 1) as usize,
            save_rule: true,
        }),
{
    lemma_digit_answers(digits);
}

/// A number that names no listed browser is refused: among `count`
/// browsers, the answer `n` (decimal digits, fitting in `usize`) with
/// `n == 0` or `n > count` is an invalid number, with or without `s`.
pub proof fn lemma_unlisted_numbers_refused(digits: Seq<char>, count: usize)
    requires
        digits.len() > 0,
        all_digits(digits),
        decimal_value(digits) <= usize::MAX,
        decimal_value(digits) == 0 || decimal_value(digits) > count,
    ensures
        selection_spec(digits, count as nat) == BrowserSelection::InvalidNumber,
        selection_spec(digits.push('s'), count as nat) == BrowserSelection::InvalidNumber,
{
    lemma_digit_answers(digits);
}

/// An answer of digits, with or without a final `s`, is read as the number
/// the digits write.
proof fn lemma_digit_answers(digits: Seq<char>)
    requires
        digits.len() > 0,
        all_digits(digits),
    ensures
        digits != "cancel"@,
        digits.push('s') != "cancel"@,
        digits.last() != 's',
        digits.push('s').drop_last() == digits,
        digits_part(digits) == digits,
{
    reveal_strlit("cancel");
    assert(is_digit(digits[0]));
    assert(is_digit(digits[digits.len() - 1]));
    if digits.push('s') == "cancel"@ {
        assert(digits.push('s')[0] == 'c');
        assert(digits[0] == 'c');
    }
    assert(digits.push('s').drop_last() =~= digits);
}

/// `cancel` cancels, and an answer whose number part (the answer without a
/// final `s`) is empty or holds a character other than a digit, after one
/// optional leading `+`, is not a number.
pub proof fn lemma_cancel_and_non_numbers(sel: Seq<char>, count: usize)
    ensures
        selection_spec("cancel"@, count as nat) == BrowserSelection::Cancel,
        ({
            let num = if sel.len() > 0 && sel.last() == 's' {
                sel.drop_last()
            } else {
                sel
            };
            let body = if num.len() > 0 && num[0] == '+' {
                num.drop_first()
            } else {
                num
            };
            sel != "cancel"@ && (body.len() == 0 || exists|i: int|
                0 <= i < body.len() && !is_digit(#[trigger] body[i])) ==> selection_spec(
                sel,
                count as nat,
            ) == BrowserSelection::InvalidFormat
        }),
{
}

/// Interprets an answer that is already trimmed and lowercased.
pub fn interpret_browser_selection(selection: &str, count: usize) -> (r: BrowserSelection)
    ensures
        r == selection_spec(selection@, count as nat),
        selection@.len() > 0 && all_digits(selection@) && 1 <= decimal_value(selection@) <= count
            ==> r == (BrowserSelection::Launch {
            index: (decimal_value(selection@) - 1) as usize,
            save_rule: false,
        }),
{
    proof {
        if selection@.len() > 0 && all_digits(selection@) && 1 <= decimal_value(selection@)
            <= count {
            lemma_every_listed_browser_selectable(selection@, count);
        }
    }
    let sel = chars_of(selection);
    if chars_eq_str(&sel, "cancel") {
        return BrowserSelection::Cancel;
    }
    let save = sel.len() > 0 && sel[sel.len() - 1] == 's';
    let num = if save {
        sub_chars(&sel, 0, sel.len() - 1)
    } else {
        copy_chars(&sel)
    };
    assert(save ==> num@ =~= sel@.drop_last());
    match parse_usize(&num) {
        Some(n) => {
            if n > 0 && n <= count {
                BrowserSelection::Launch { index: n - 1, save_rule: save }
            } else {
                BrowserSelection::InvalidNumber
            }
        },
        None => BrowserSelection::InvalidFormat,
    }
}

/// Interprets a raw answer line: trimmed, lowercased, then read as
/// `interpret_browser_selection` reads it.
pub fn parse_browser_selection(line: &str, count: usize) -> (r: BrowserSelection)
    ensures
        r == selection_spec(unicode_lowercase(trim_seq(line@)), count as nat),
{
    let cs = chars_of(line);
    let trimmed = string_of(&trim_chars(&cs));
    let lowered = to_lowercase(trimmed.as_str());
    interpret_browser_selection(lowered.as_str(), count)
}

// ---------------------------------------------------------------------------
// Where to register from
// ---------------------------------------------------------------------------

/// Which copy of the program to register.
#[derive(PartialEq, Eq, Structural, Debug, Clone, Copy)]
pub enum RegisterLocationChoice {
    /// The running binary, where it is.
    Current,
    /// Install to the best-practice path first and register that copy.
    InstallAndRegister,
    /// Register the copy already installed at the best-practice path.
    UseInstalled,
}

/// The choice made without asking: the running binary when it is the
/// installed one; without a terminal, the installed copy when it exists and
/// a fresh install otherwise; `None` when the user must be asked.
pub fn register_location_without_prompt(
    running_installed_copy: bool,
    stdin_is_terminal: bool,
    installed_copy_exists: bool,
) -> (r: Option<RegisterLocationChoice>)
    ensures
        r == if running_installed_copy {
            Some(RegisterLocationChoice::Current)
        } else if !stdin_is_terminal {
            Some(
                if installed_copy_exists {
                    RegisterLocationChoice::UseInstalled
                } else {
                    RegisterLocationChoice::InstallAndRegister
                },
            )
        } else {
            None
        },
{
    if running_installed_copy {
        Some(RegisterLocationChoice::Current)
    } else if !stdin_is_terminal {
        if installed_copy_exists {
            Some(RegisterLocationChoice::UseInstalled)
        } else {
            Some(RegisterLocationChoice::InstallAndRegister)
        }
    } else {
        None
    }
}

/// The choice from the user's reply (`None` when input ended): `1`
/// installs and registers, anything else keeps the current location; at end
/// of input, the installed copy when it exists and a fresh install otherwise.
pub fn register_location_from_reply(reply: Option<&str>, installed_copy_exists: bool) -> (r:
    RegisterLocationChoice)
    ensures
        r == match reply {
            None => if installed_copy_exists {
                RegisterLocationChoice::UseInstalled
            } else {
                RegisterLocationChoice::InstallAndRegister
            },
            Some(line) => if trim_seq(line@) == "1"@ {
                RegisterLocationChoice::InstallAndRegister
            } else {
                RegisterLocationChoice::Current
            },
        },
{
    match reply {
        None => {
            if installed_copy_exists {
                RegisterLocationChoice::UseInstalled
            } else {
                RegisterLocationChoice::InstallAndRegister
            }
        },
        Some(line) => {
            let cs = chars_of(line);
            let t = trim_chars(&cs);
            if chars_eq_str(&t, "1") {
                RegisterLocationChoice::InstallAndRegister
            } else {
                RegisterLocationChoice::Current
            }
        },
    }
}

} // verus!
