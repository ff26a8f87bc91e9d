//! The interactive shell's line handling: quote-aware tokenizing and the
//! classification of each input line.

use vstd::prelude::*;

use crate::text::{
    ascii_lower, is_blank, lemma_blank_iff_trimmed_empty, lemma_trim_end_concat,
    lemma_trim_end_take, lemma_trim_start_skip, leading_ws, trim_end, trim_start,
    chars_of, eq_ignore_ascii_case, equal_ignoring_ascii_case, is_white_space, push_char,
    same_text, string_from_chars, string_views, trim, trimmed, white_space,
};

verus! {

broadcast use vstd::string::group_string_axioms;

/// Straight or typographic single quote.
pub open spec fn is_single_quote(c: char) -> bool {
    c == '\'' || c == '\u{2018}' || c == '\u{2019}'
}

/// Straight or typographic double quote.
pub open spec fn is_double_quote(c: char) -> bool {
    c == '"' || c == '\u{201C}' || c == '\u{201D}'
}

/// State of the tokenizer after reading part of a line.
pub struct LexState {
    /// Tokens completed so far.
    pub tokens: Seq<Seq<char>>,
    /// Characters of the token being read.
    pub current: Seq<char>,
    /// Whether a token is open (possibly an empty quoted one).
    pub has_token: bool,
    /// Inside single quotes.
    pub in_single: bool,
    /// Inside double quotes.
    pub in_double: bool,
}

/// The tokenizer's state before reading anything.
pub open spec fn lex_start() -> LexState {
    LexState {
        tokens: Seq::empty(),
        current: Seq::empty(),
        has_token: false,
        in_single: false,
        in_double: false,
    }
}

/// Reading one character: a quote opens or closes its kind of quoting unless the
/// other kind is open; white space outside quotes ends the open token; any
/// other character is part of the current token.
pub open spec fn lex_step(st: LexState, c: char) -> LexState {
    if is_single_quote(c) && !st.in_double {
        LexState { in_single: !st.in_single, has_token: true, ..st }
    } else if is_double_quote(c) && !st.in_single {
        LexState { in_double: !st.in_double, has_token: true, ..st }
    } else if is_white_space(c) && !st.in_single && !st.in_double {
        if st.has_token {
            LexState {
                tokens: st.tokens.push(st.current),
                current: Seq::empty(),
                has_token: false,
                ..st
            }
        } else {
            st
        }
    } else {
        LexState { current: st.current.push(c), has_token: true, ..st }
    }
}

/// The state after reading all of `s`, starting from `st`.
pub open spec fn lex_from(st: LexState, s: Seq<char>) -> LexState
    decreases s.len(),
{
    if s.len() == 0 {
        st
    } else {
        lex_step(lex_from(st, s.drop_last()), s.last())
    }
}

/// The arguments of a shell line, or `Err` when a quote is left open.
pub open spec fn tokens_of(s: Seq<char>) -> Result<Seq<Seq<char>>, ()> {
    let st = lex_from(lex_start(), s);
    if st.in_single || st.in_double {
        Err(())
    } else if st.has_token {
        Ok(st.tokens.push(st.current))
    } else {
        Ok(st.tokens)
    }
}

/// Split a line into arguments, honoring single and double quotes so messages
/// and seed phrases with spaces work: `send 0xabc "hello world"`.
pub fn tokenize(input: &str) -> (r: Result<Vec<String>, String>)
    ensures
        match r {
            Ok(v) => tokens_of(input@) == Ok::<Seq<Seq<char>>, ()>(string_views(v@)),
            Err(e) => tokens_of(input@) is Err && e@ == "unterminated quote"@,
        },
{
    let mut tokens: Vec<String> = Vec::new();
    let mut current = String::new();
    let mut has_token = false;
    let mut in_single = false;
    let mut in_double = false;

    for c in it: input.chars()
        invariant
            it.seq() == input@,
            ({
                let st = lex_from(lex_start(), input@.take(it.index() as int));
                &&& string_views(tokens@) == st.tokens
                &&& current@ == st.current
                &&& has_token == st.has_token
                &&& in_single == st.in_single
                &&& in_double == st.in_double
            }),
    {
        proof {
            let prefix = input@.take(it.index() + 1);
            assert(prefix.drop_last() =~= input@.take(it.index() as int));
            assert(prefix.last() == c);
        }
        let single = c == '\'' || c == '\u{2018}' || c == '\u{2019}';
        let double = c == '"' || c == '\u{201C}' || c == '\u{201D}';
        if single && !in_double {
            in_single = !in_single;
            has_token = true;
        } else if double && !in_single {
            in_double = !in_double;
            has_token = true;
        } else if white_space(c) && !in_single && !in_double {
            if has_token {
                let done = current;
                let ghost before = tokens@;
                tokens.push(done);
                current = String::new();
                has_token = false;
                assert(string_views(tokens@) =~= string_views(before).push(done@));
            }
        } else {
            push_char(&mut current, c);
            has_token = true;
        }
    }
    assert(input@.take(input@.len() as int) =~= input@);
    if in_single || in_double {
        return Err("unterminated quote".to_owned());
    }
    if has_token {
        let last = current;
        let ghost before = tokens@;
        tokens.push(last);
        assert(string_views(tokens@) =~= string_views(before).push(last@));
    }
    Ok(tokens)
}

/// `t` wrapped in straight double quotes.
pub open spec fn double_quoted(t: Seq<char>) -> Seq<char> {
    seq!['"'] + t + seq!['"']
}

/// The arguments, each double-quoted, separated by single spaces.
pub open spec fn quoted_line(ts: Seq<Seq<char>>) -> Seq<char>
    decreases ts.len(),
{
    if ts.len() == 0 {
        Seq::empty()
    } else if ts.len() == 1 {
        double_quoted(ts[0])
    } else {
        quoted_line(ts.drop_last()) + seq![' '] + double_quoted(ts.last())
    }
}

/// `t` holds no double quote of any kind.
pub open spec fn free_of_double_quotes(t: Seq<char>) -> bool {
    forall|i: int| 0 <= i < t.len() ==> !is_double_quote(#[trigger] t[i])
}

/// Reading `a` then `b` is reading `a + b`.
pub proof fn lemma_lex_concat(st: LexState, a: Seq<char>, b: Seq<char>)
    ensures
        lex_from(st, a + b) == lex_from(lex_from(st, a), b),
    decreases b.len(),
{
    if b.len() == 0 {
        assert(a + b =~= a);
    } else {
        lemma_lex_concat(st, a, b.drop_last());
        assert((a + b).drop_last() =~= a + b.drop_last());
        assert((a + b).last() == b.last());
    }
}

proof fn lemma_lex_one(st: LexState, c: char)
    ensures
        lex_from(st, seq![c]) == lex_step(st, c),
{
    assert(seq![c].drop_last() =~= Seq::<char>::empty());
    assert(lex_from(st, Seq::<char>::empty()) == st);
}

/// Inside double quotes, every character other than a double quote joins the
/// current token.
proof fn lemma_inside_double_quotes(st: LexState, t: Seq<char>)
    requires
        st.in_double,
        !st.in_single,
        st.has_token,
        free_of_double_quotes(t),
    ensures
        lex_from(st, t) == (LexState { current: st.current + t, ..st }),
    decreases t.len(),
{
    if t.len() == 0 {
        assert(st.current + t =~= st.current);
    } else {
        assert(free_of_double_quotes(t.drop_last())) by {
            assert forall|i: int| 0 <= i < t.drop_last().len() implies !is_double_quote(
                #[trigger] t.drop_last()[i],
            ) by {
                assert(t.drop_last()[i] == t[i]);
            }
        }
        lemma_inside_double_quotes(st, t.drop_last());
        assert(!is_double_quote(t[t.len() - 1]));
        assert(st.current + t.drop_last() + seq![t.last()] =~= st.current + t);
        assert((st.current + t.drop_last()).push(t.last()) =~= st.current + t);
    }
}

/// A double-quoted argument read between arguments becomes the open token.
proof fn lemma_read_quoted(st: LexState, t: Seq<char>)
    requires
        !st.in_double,
        !st.in_single,
        !st.has_token,
        st.current.len() == 0,
        free_of_double_quotes(t),
    ensures
        lex_from(st, double_quoted(t)) == (LexState {
            current: t,
            has_token: true,
            ..st
        }),
{
    let open = lex_from(st, seq!['"']);
    lemma_lex_one(st, '"');
    assert(open == LexState { in_double: true, has_token: true, ..st });
    lemma_lex_concat(st, seq!['"'], t);
    lemma_inside_double_quotes(open, t);
    assert(st.current + t =~= t);
    lemma_lex_concat(st, seq!['"'] + t, seq!['"']);
    let inner = lex_from(st, seq!['"'] + t);
    lemma_lex_one(inner, '"');
}

proof fn lemma_quoted_line_state(ts: Seq<Seq<char>>)
    requires
        ts.len() > 0,
        forall|k: int| 0 <= k < ts.len() ==> free_of_double_quotes(#[trigger] ts[k]),
    ensures
        lex_from(lex_start(), quoted_line(ts)) == (LexState {
            tokens: ts.drop_last(),
            current: ts.last(),
            has_token: true,
            in_single: false,
            in_double: false,
        }),
    decreases ts.len(),
{
    if ts.len() == 1 {
        lemma_read_quoted(lex_start(), ts[0]);
        assert(ts.drop_last() =~= Seq::<Seq<char>>::empty());
    } else {
        let prev = ts.drop_last();
        assert forall|k: int| 0 <= k < prev.len() implies free_of_double_quotes(
            #[trigger] prev[k],
        ) by {
            assert(prev[k] == ts[k]);
        }
        lemma_quoted_line_state(prev);
        let before = lex_from(lex_start(), quoted_line(prev));
        lemma_lex_concat(lex_start(), quoted_line(prev), seq![' ']);
        let spaced = lex_from(before, seq![' ']);
        lemma_lex_one(before, ' ');
        assert(prev.drop_last().push(prev.last()) =~= prev);
        assert(spaced == LexState {
            tokens: prev,
            current: Seq::empty(),
            has_token: false,
            in_single: false,
            in_double: false,
        });
        lemma_lex_concat(lex_start(), quoted_line(prev) + seq![' '], double_quoted(ts.last()));
        lemma_read_quoted(spaced, ts.last());
    }
}

/// Arguments that hold no double quotes come back unchanged from a line in
/// which each is double-quoted and they are separated by spaces: spaces,
/// single quotes and other characters inside an argument survive.
pub proof fn law_quoted_arguments_round_trip(ts: Seq<Seq<char>>)
    requires
        forall|k: int| 0 <= k < ts.len() ==> free_of_double_quotes(#[trigger] ts[k]),
    ensures
        tokens_of(quoted_line(ts)) == Ok::<Seq<Seq<char>>, ()>(ts),
{
    if ts.len() == 0 {
        assert(lex_from(lex_start(), quoted_line(ts)) == lex_start());
        assert(ts =~= Seq::<Seq<char>>::empty());
    } else {
        lemma_quoted_line_state(ts);
        assert(ts.drop_last().push(ts.last()) =~= ts);
        let st = lex_from(lex_start(), quoted_line(ts));
        assert(st.tokens.push(st.current) == ts);
    }
}

/// `w` is a plain word: no white space and no quote of either kind.
pub open spec fn is_plain_word(w: Seq<char>) -> bool {
    forall|i: int|
        0 <= i < w.len() ==> !is_white_space(#[trigger] w[i]) && !is_single_quote(w[i])
            && !is_double_quote(w[i])
}

/// The words separated by single spaces.
pub open spec fn spaced_line(ws: Seq<Seq<char>>) -> Seq<char>
    decreases ws.len(),
{
    if ws.len() == 0 {
        Seq::empty()
    } else if ws.len() == 1 {
        ws[0]
    } else {
        spaced_line(ws.drop_last()) + seq![' '] + ws.last()
    }
}

proof fn lemma_read_plain(st: LexState, w: Seq<char>)
    requires
        !st.in_single,
        !st.in_double,
        is_plain_word(w),
    ensures
        lex_from(st, w) == (LexState {
            current: st.current + w,
            has_token: st.has_token || w.len() > 0,
            ..st
        }),
    decreases w.len(),
{
    if w.len() == 0 {
        assert(st.current + w =~= st.current);
    } else {
        assert(is_plain_word(w.drop_last())) by {
            assert forall|i: int| 0 <= i < w.drop_last().len() implies !is_white_space(
                #[trigger] w.drop_last()[i],
            ) && !is_single_quote(w.drop_last()[i]) && !is_double_quote(w.drop_last()[i]) by {
                assert(w.drop_last()[i] == w[i]);
            }
        }
        lemma_read_plain(st, w.drop_last());
        let c = w[w.len() - 1];
        assert(!is_white_space(c) && !is_single_quote(c) && !is_double_quote(c));
        assert((st.current + w.drop_last()).push(w.last()) =~= st.current + w);
    }
}

proof fn lemma_spaced_line_state(ws: Seq<Seq<char>>)
    requires
        ws.len() > 0,
        forall|k: int| 0 <= k < ws.len() ==> is_plain_word(#[trigger] ws[k]) && ws[k].len() > 0,
    ensures
        lex_from(lex_start(), spaced_line(ws)) == (LexState {
            tokens: ws.drop_last(),
            current: ws.last(),
            has_token: true,
            in_single: false,
            in_double: false,
        }),
    decreases ws.len(),
{
    if ws.len() == 1 {
        assert(is_plain_word(ws[0]) && ws[0].len() > 0);
        lemma_read_plain(lex_start(), ws[0]);
        assert(Seq::<char>::empty() + ws[0] =~= ws[0]);
        assert(ws.drop_last() =~= Seq::<Seq<char>>::empty());
    } else {
        let prev = ws.drop_last();
        assert forall|k: int| 0 <= k < prev.len() implies is_plain_word(#[trigger] prev[k])
            && prev[k].len() > 0 by {
            assert(prev[k] == ws[k]);
        }
        lemma_spaced_line_state(prev);
        let before = lex_from(lex_start(), spaced_line(prev));
        lemma_lex_concat(lex_start(), spaced_line(prev), seq![' ']);
        let spaced = lex_from(before, seq![' ']);
        lemma_lex_one(before, ' ');
        assert(prev.drop_last().push(prev.last()) =~= prev);
        assert(spaced == LexState {
            tokens: prev,
            current: Seq::empty(),
            has_token: false,
            in_single: false,
            in_double: false,
        });
        lemma_lex_concat(lex_start(), spaced_line(prev) + seq![' '], ws.last());
        assert(is_plain_word(ws[ws.len() - 1]) && ws[ws.len() - 1].len() > 0);
        lemma_read_plain(spaced, ws.last());
        assert(Seq::<char>::empty() + ws.last() =~= ws.last());
    }
}

/// Words without white space or quotes, separated by single spaces, are
/// split back into exactly those words.
pub proof fn law_plain_words_round_trip(ws: Seq<Seq<char>>)
    requires
        forall|k: int| 0 <= k < ws.len() ==> is_plain_word(#[trigger] ws[k]) && ws[k].len() > 0,
    ensures
        tokens_of(spaced_line(ws)) == Ok::<Seq<Seq<char>>, ()>(ws),
{
    if ws.len() == 0 {
        assert(lex_from(lex_start(), spaced_line(ws)) == lex_start());
        assert(ws =~= Seq::<Seq<char>>::empty());
    } else {
        lemma_spaced_line_state(ws);
        assert(ws.drop_last().push(ws.last()) =~= ws);
        let st = lex_from(lex_start(), spaced_line(ws));
        assert(st.tokens.push(st.current) == ws);
    }
}

/// The words of `s` finished so far, and the word being read: words are the
/// maximal runs of characters that are not white space.
pub open spec fn whitespace_split_state(s: Seq<char>) -> (Seq<Seq<char>>, Seq<char>)
    decreases s.len(),
{
    if s.len() == 0 {
        (Seq::empty(), Seq::empty())
    } else {
        let (words, cur) = whitespace_split_state(s.drop_last());
        if is_white_space(s.last()) {
            if cur.len() > 0 {
                (words.push(cur), Seq::empty())
            } else {
                (words, cur)
            }
        } else {
            (words, cur.push(s.last()))
        }
    }
}

/// The words of `s` separated by white space (`str::split_whitespace`).
pub open spec fn whitespace_split(s: Seq<char>) -> Seq<Seq<char>> {
    let (words, cur) = whitespace_split_state(s);
    if cur.len() > 0 {
        words.push(cur)
    } else {
        words
    }
}

/// `s` holds no quote of either kind.
pub open spec fn free_of_quotes(s: Seq<char>) -> bool {
    forall|i: int| 0 <= i < s.len() ==> !is_single_quote(#[trigger] s[i]) && !is_double_quote(s[i])
}

proof fn lemma_unquoted_state(s: Seq<char>)
    requires
        free_of_quotes(s),
    ensures
        lex_from(lex_start(), s) == (LexState {
            tokens: whitespace_split_state(s).0,
            current: whitespace_split_state(s).1,
            has_token: whitespace_split_state(s).1.len() > 0,
            in_single: false,
            in_double: false,
        }),
    decreases s.len(),
{
    if s.len() > 0 {
        assert(free_of_quotes(s.drop_last())) by {
            assert forall|i: int| 0 <= i < s.drop_last().len() implies !is_single_quote(
                #[trigger] s.drop_last()[i],
            ) && !is_double_quote(s.drop_last()[i]) by {
                assert(s.drop_last()[i] == s[i]);
            }
        }
        lemma_unquoted_state(s.drop_last());
        assert(!is_single_quote(s[s.len() - 1]) && !is_double_quote(s[s.len() - 1]));
    }
}

/// A line without quotes splits exactly at white space, as
/// `str::split_whitespace` splits it.
pub proof fn law_unquoted_line_splits_at_white_space(s: Seq<char>)
    requires
        free_of_quotes(s),
    ensures
        tokens_of(s) == Ok::<Seq<Seq<char>>, ()>(whitespace_split(s)),
{
    lemma_unquoted_state(s);
}

/// `s` without the byte-order marks (U+FEFF) it starts with.
pub open spec fn without_leading_boms(s: Seq<char>) -> Seq<char>
    decreases s.len(),
{
    if s.len() > 0 && s[0] == '\u{feff}' {
        without_leading_boms(s.drop_first())
    } else {
        s
    }
}

/// What the shell does with one input line.
#[derive(Debug, PartialEq, Eq)]
pub enum ShellAction {
    /// Nothing to do: the line is blank, or names only the program.
    Skip,
    /// Leave the shell.
    Exit,
    /// Clear the screen and show the banner again.
    Clear,
    /// The line cannot be split into arguments; the message says why.
    Invalid(String),
    /// Run a command: the program name followed by the line's arguments.
    Run(Vec<String>),
}

/// What a [`ShellAction`] holds.
pub enum ShellActionView {
    Skip,
    Exit,
    Clear,
    Invalid(Seq<char>),
    Run(Seq<Seq<char>>),
}

impl View for ShellAction {
    type V = ShellActionView;

    open spec fn view(&self) -> ShellActionView {
        match self {
            ShellAction::Skip => ShellActionView::Skip,
            ShellAction::Exit => ShellActionView::Exit,
            ShellAction::Clear => ShellActionView::Clear,
            ShellAction::Invalid(e) => ShellActionView::Invalid(e@),
            ShellAction::Run(argv) => ShellActionView::Run(string_views(argv@)),
        }
    }
}

/// What the shell does with the line `raw`: leading byte-order marks and
/// surrounding white space are dropped; `exit`, `quit`, `:q` leave; `clear`,
/// `cls` clear the screen; anything else is tokenized, a leading `ghostnet`
/// (any ASCII case) is dropped, and what remains runs as a command.
pub open spec fn shell_action_of(raw: Seq<char>) -> ShellActionView {
    let line = trimmed(without_leading_boms(raw));
    if line.len() == 0 {
        ShellActionView::Skip
    } else if is_exit_word(line) {
        ShellActionView::Exit
    } else if is_clear_word(line) {
        ShellActionView::Clear
    } else {
        match tokens_of(line) {
            Err(_) => ShellActionView::Invalid("unterminated quote"@),
            Ok(ts) => {
                let rest = without_program_name(ts);
                if rest.len() == 0 {
                    ShellActionView::Skip
                } else {
                    ShellActionView::Run(seq!["ghostnet"@] + rest)
                }
            },
        }
    }
}

/// The line is one of the words that leave the shell.
pub open spec fn is_exit_word(line: Seq<char>) -> bool {
    line == "exit"@ || line == "quit"@ || line == ":q"@
}

/// The line is one of the words that clear the screen.
pub open spec fn is_clear_word(line: Seq<char>) -> bool {
    line == "clear"@ || line == "cls"@
}

/// The arguments with a leading program name (in any ASCII case) left out.
pub open spec fn without_program_name(ts: Seq<Seq<char>>) -> Seq<Seq<char>> {
    if ts.len() > 0 && equal_ignoring_ascii_case(ts[0], "ghostnet"@) {
        ts.drop_first()
    } else {
        ts
    }
}

fn strip_leading_boms(raw: &str) -> (r: String)
    ensures
        r@ == without_leading_boms(raw@),
{
    let chars = chars_of(raw);
    let mut i: usize = 0;
    assert(chars@.skip(0) =~= chars@);
    while i < chars.len() && chars[i] == '\u{feff}'
        invariant
            i <= chars@.len(),
            chars@ == raw@,
            without_leading_boms(raw@) == without_leading_boms(chars@.skip(i as int)),
        decreases chars@.len() - i,
    {
        assert(chars@.skip(i as int).drop_first() =~= chars@.skip(i + 1));
        i += 1;
    }
    assert(chars@.subrange(i as int, chars@.len() as int) =~= chars@.skip(i as int));
    string_from_chars(&chars, i, chars.len())
}


/// Interprets one line typed at the shell prompt: leading byte-order marks and
/// surrounding white space are dropped; `exit`, `quit`, `:q` leave; `clear`,
/// `cls` clear the screen; anything else is tokenized, a leading `ghostnet`
/// (any ASCII case) is dropped, and what remains runs as a command.
pub fn interpret_line(raw: &str) -> (r: ShellAction)
    ensures
        r@ == shell_action_of(raw@),
{
    let unmarked = strip_leading_boms(raw);
    let line = trim(unmarked.as_str());
    if line.as_str().is_empty() {
        return ShellAction::Skip;
    }
    if same_text(line.as_str(), "exit") || same_text(line.as_str(), "quit") || same_text(line.as_str(), ":q") {
        return ShellAction::Exit;
    }
    if same_text(line.as_str(), "clear") || same_text(line.as_str(), "cls") {
        return ShellAction::Clear;
    }
    let mut tokens = match tokenize(line.as_str()) {
        Ok(tokens) => tokens,
        Err(message) => {
            return ShellAction::Invalid(message);
        },
    };
    let ghost ts = string_views(tokens@);
    if tokens.len() > 0 && eq_ignore_ascii_case(tokens[0].as_str(), "ghostnet") {
        tokens.remove(0);
        assert(string_views(tokens@) =~= ts.drop_first());
    }
    if tokens.len() == 0 {
        return ShellAction::Skip;
    }
    let mut argv: Vec<String> = Vec::new();
    argv.push("ghostnet".to_owned());
    let n = tokens.len();
    let mut i: usize = 0;
    while i < n
        invariant
            i <= n == tokens@.len(),
            string_views(argv@) == seq!["ghostnet"@] + string_views(tokens@).take(i as int),
        decreases n - i,
    {
        let t = tokens[i].clone();
        let ghost before = argv@;
        argv.push(t);
        assert(string_views(argv@) =~= string_views(before).push(tokens@[i as int]@));
        assert(string_views(tokens@).take(i + 1) =~= string_views(tokens@).take(i as int).push(
            tokens@[i as int]@,
        ));
        i += 1;
    }
    assert(string_views(tokens@).take(n as int) =~= string_views(tokens@));
    ShellAction::Run(argv)
}

proof fn lemma_program_name_letters(p: Seq<char>)
    requires
        equal_ignoring_ascii_case(p, "ghostnet"@),
    ensures
        p.len() == 8,
        is_plain_word(p),
        p[0] != '\u{feff}',
{
    reveal_strlit("ghostnet");
    let g = "ghostnet"@;
    assert(g =~= seq!['g', 'h', 'o', 's', 't', 'n', 'e', 't']);
    assert forall|i: int| 0 <= i < p.len() implies 0x41 <= (#[trigger] p[i]) as u32 <= 0x5a || 0x61
        <= p[i] as u32 <= 0x7a by {
        assert(ascii_lower(p[i]) == ascii_lower(g[i]));
        assert(0x61 <= ascii_lower(g[i]) <= 0x7a);
    }
}

proof fn lemma_lex_blank(st: LexState, w: Seq<char>)
    requires
        !st.in_single,
        !st.in_double,
        !st.has_token,
        is_blank(w),
    ensures
        lex_from(st, w) == st,
    decreases w.len(),
{
    if w.len() > 0 {
        assert(is_blank(w.drop_last())) by {
            assert forall|i: int| 0 <= i < w.drop_last().len() implies is_white_space(
                #[trigger] w.drop_last()[i],
            ) by {
                assert(w.drop_last()[i] == w[i]);
            }
        }
        lemma_lex_blank(st, w.drop_last());
        assert(is_white_space(w[w.len() - 1]));
    }
}

proof fn lemma_lex_with_earlier_tokens(pre: Seq<Seq<char>>, st: LexState, s: Seq<char>)
    ensures
        lex_from(LexState { tokens: pre + st.tokens, ..st }, s) == (LexState {
            tokens: pre + lex_from(st, s).tokens,
            ..lex_from(st, s)
        }),
    decreases s.len(),
{
    if s.len() > 0 {
        lemma_lex_with_earlier_tokens(pre, st, s.drop_last());
        let t = lex_from(st, s.drop_last());
        assert((pre + t.tokens).push(t.current) =~= pre + t.tokens.push(t.current));
    }
}

/// In the shell, a line that begins with the program name (in any ASCII case)
/// and a space does what the rest of the line does on its own, when that rest
/// is a command: not a built-in word, split without error into arguments whose
/// first is not the program name, and not starting with a byte-order mark
/// (such a mark is dropped only at the very start of a line).
pub proof fn law_program_name_ignored(p: Seq<char>, rest: Seq<char>)
    requires
        equal_ignoring_ascii_case(p, "ghostnet"@),
        !(rest.len() > 0 && rest[0] == '\u{feff}'),
        !is_exit_word(trimmed(rest)),
        !is_clear_word(trimmed(rest)),
        tokens_of(trimmed(rest)) matches Ok(ts) && ts.len() > 0 && !equal_ignoring_ascii_case(
            ts[0],
            "ghostnet"@,
        ),
    ensures
        shell_action_of(p + seq![' '] + rest) == shell_action_of(rest),
{
    lemma_program_name_letters(p);
    let ts = tokens_of(trimmed(rest))->Ok_0;
    let full = p + seq![' '] + rest;
    // Neither line starts with a byte-order mark.
    assert(without_leading_boms(rest) == rest);
    assert(full[0] == p[0]);
    assert(without_leading_boms(full) == full);
    // The rest is not blank: blank text has no arguments.
    lemma_blank_iff_trimmed_empty(rest);
    if trimmed(rest).len() == 0 {
        assert(trimmed(rest) =~= Seq::<char>::empty());
        assert(lex_from(lex_start(), trimmed(rest)) == lex_start());
    }
    // Split the rest into its leading white space and the remainder.
    lemma_trim_start_skip(rest);
    let lead = rest.take(leading_ws(rest) as int);
    let body = trim_start(rest);
    assert(rest =~= lead + body);
    assert(is_blank(lead)) by {
        assert forall|i: int| 0 <= i < lead.len() implies is_white_space(#[trigger] lead[i]) by {
            assert(lead[i] == rest[i]);
        }
    }
    assert(trimmed(rest) == trim_end(body));
    lemma_trim_end_concat(lead, body);
    assert(trim_end(rest) == lead + trim_end(body));
    // The full line keeps its start and loses the same end.
    assert(!is_white_space(full[0]));
    assert(trim_start(full) == full);
    lemma_trim_end_concat(p + seq![' '], rest);
    let line = trimmed(full);
    assert(line == p + seq![' '] + trim_end(rest));
    assert(line =~= p + (seq![' '] + (lead + trim_end(body))));
    // Reading the full line: the program name, a space, the leading white space,
    // then what the rest reads.
    lemma_read_plain(lex_start(), p);
    assert(Seq::<char>::empty() + p =~= p);
    let after_name = lex_from(lex_start(), p);
    lemma_lex_one(after_name, ' ');
    let after_space = lex_from(after_name, seq![' ']);
    assert(after_space == LexState { tokens: seq![p], ..lex_start() }) by {
        assert(Seq::<Seq<char>>::empty().push(p) =~= seq![p]);
    }
    lemma_lex_blank(after_space, lead);
    lemma_lex_with_earlier_tokens(seq![p], lex_start(), trim_end(body));
    assert(LexState { tokens: seq![p] + lex_start().tokens, ..lex_start() } == after_space) by {
        assert(seq![p] + Seq::<Seq<char>>::empty() =~= seq![p]);
    }
    lemma_lex_concat(lex_start(), p, seq![' ']);
    lemma_lex_concat(lex_start(), p + seq![' '], lead);
    lemma_lex_concat(lex_start(), p + seq![' '] + lead, trim_end(body));
    assert(line =~= p + seq![' '] + lead + trim_end(body));
    let inner = lex_from(lex_start(), trim_end(body));
    assert(lex_from(lex_start(), line) == LexState { tokens: seq![p] + inner.tokens, ..inner });
    assert(tokens_of(line) == Ok::<Seq<Seq<char>>, ()>(seq![p] + ts)) by {
        assert((seq![p] + inner.tokens).push(inner.current) =~= seq![p] + inner.tokens.push(
            inner.current,
        ));
    }
    // The full line is no built-in word: it is longer than all of them.
    reveal_strlit("exit");
    reveal_strlit("quit");
    reveal_strlit(":q");
    reveal_strlit("clear");
    reveal_strlit("cls");
    assert(line.len() >= 9);
    assert((seq![p] + ts).drop_first() =~= ts);
}

} // verus!
