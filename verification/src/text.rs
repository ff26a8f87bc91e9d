//! Character-level text utilities shared by the rest of the library.

use vstd::prelude::*;
use vstd::std_specs::iter::IteratorSpec;

verus! {

broadcast use vstd::string::group_string_axioms;

/// The characters of `s`, in order.
pub fn chars_of(s: &str) -> (r: Vec<char>)
    ensures
        r@ == s@,
{
    let mut out: Vec<char> = Vec::new();
    for c in it: s.chars()
        invariant
            out@ == it.seq().take(it.index() as int),
    {
        out.push(c);
    }
    assert(out@ =~= s@);
    out
}

/// `String::push` from std: appends one character to the end of the string.
/// The contract claims exactly what its documentation says: the new text is the
/// old text followed by `c`.
#[verifier::external_body]
pub(crate) fn push_char(s: &mut String, c: char)
    ensures
        final(s)@ == old(s)@.push(c),
{
    s.push(c)
}

/// The string made of `chars[from..to]`.
pub fn string_from_chars(chars: &Vec<char>, from: usize, to: usize) -> (r: String)
    requires
        from <= to <= chars@.len(),
    ensures
        r@ == chars@.subrange(from as int, to as int),
{
    let mut out = String::new();
    let mut i = from;
    while i < to
        invariant
            from <= i <= to <= chars@.len(),
            out@ == chars@.subrange(from as int, i as int),
        decreases to - i,
    {
        push_char(&mut out, chars[i]);
        assert(out@ =~= chars@.subrange(from as int, i + 1));
        i += 1;
    }
    out
}

/// Unicode `White_Space` property: the characters that `char::is_whitespace`
/// and `str::trim` treat as blank.
pub open spec fn is_white_space(c: char) -> bool {
    let u = c as u32;
    ||| 0x09 <= u <= 0x0d
    ||| u == 0x20
    ||| u == 0x85
    ||| u == 0xa0
    ||| u == 0x1680
    ||| 0x2000 <= u <= 0x200a
    ||| u == 0x2028
    ||| u == 0x2029
    ||| u == 0x202f
    ||| u == 0x205f
    ||| u == 0x3000
}

/// Whether `c` has the Unicode `White_Space` property.
pub fn white_space(c: char) -> (r: bool)
    ensures
        r == is_white_space(c),
{
    let u = c as u32;
    (0x09 <= u && u <= 0x0d) || u == 0x20 || u == 0x85 || u == 0xa0 || u == 0x1680
        || (0x2000 <= u && u <= 0x200a) || u == 0x2028 || u == 0x2029 || u == 0x202f
        || u == 0x205f || u == 0x3000
}

/// `s` without its leading white space.
pub open spec fn trim_start(s: Seq<char>) -> Seq<char>
    decreases s.len(),
{
    if s.len() > 0 && is_white_space(s[0]) {
        trim_start(s.drop_first())
    } else {
        s
    }
}

/// `s` without its trailing white space.
pub open spec fn trim_end(s: Seq<char>) -> Seq<char>
    decreases s.len(),
{
    if s.len() > 0 && is_white_space(s.last()) {
        trim_end(s.drop_last())
    } else {
        s
    }
}

/// `s` without leading and trailing white space, as `str::trim` gives it.
pub open spec fn trimmed(s: Seq<char>) -> Seq<char> {
    trim_end(trim_start(s))
}

/// Every character of `s` is white space (so `s.trim()` is empty).
pub open spec fn is_blank(s: Seq<char>) -> bool {
    forall|i: int| 0 <= i < s.len() ==> is_white_space(#[trigger] s[i])
}

/// Number of leading white-space characters of `s`.
pub open spec fn leading_ws(s: Seq<char>) -> nat
    decreases s.len(),
{
    if s.len() > 0 && is_white_space(s[0]) {
        1 + leading_ws(s.drop_first())
    } else {
        0
    }
}

/// Number of trailing white-space characters of `s`.
pub open spec fn trailing_ws(s: Seq<char>) -> nat
    decreases s.len(),
{
    if s.len() > 0 && is_white_space(s.last()) {
        1 + trailing_ws(s.drop_last())
    } else {
        0
    }
}

pub(crate) proof fn lemma_trim_start_skip(s: Seq<char>)
    ensures
        leading_ws(s) <= s.len(),
        trim_start(s) == s.skip(leading_ws(s) as int),
        forall|i: int| 0 <= i < leading_ws(s) ==> is_white_space(#[trigger] s[i]),
        leading_ws(s) < s.len() ==> !is_white_space(s[leading_ws(s) as int]),
    decreases s.len(),
{
    if s.len() > 0 && is_white_space(s[0]) {
        lemma_trim_start_skip(s.drop_first());
        assert(s.drop_first().skip(leading_ws(s.drop_first()) as int) =~= s.skip(
            leading_ws(s) as int,
        ));
        assert forall|i: int| 0 <= i < leading_ws(s) implies is_white_space(#[trigger] s[i]) by {
            if i > 0 {
                assert(s[i] == s.drop_first()[i - 1]);
            }
        }
    } else {
        assert(s.skip(0) =~= s);
    }
}

pub(crate) proof fn lemma_trim_end_take(s: Seq<char>)
    ensures
        trailing_ws(s) <= s.len(),
        trim_end(s) == s.take(s.len() - trailing_ws(s)),
        forall|i: int|
            s.len() - trailing_ws(s) <= i < s.len() ==> is_white_space(#[trigger] s[i]),
        trailing_ws(s) < s.len() ==> !is_white_space(s[s.len() - trailing_ws(s) - 1]),
    decreases s.len(),
{
    if s.len() > 0 && is_white_space(s.last()) {
        lemma_trim_end_take(s.drop_last());
        assert(s.drop_last().take(s.drop_last().len() - trailing_ws(s.drop_last())) =~= s.take(
            s.len() - trailing_ws(s),
        ));
        assert forall|i: int|
            s.len() - trailing_ws(s) <= i < s.len() implies is_white_space(#[trigger] s[i]) by {
            if i < s.len() - 1 {
                assert(s[i] == s.drop_last()[i]);
            }
        }
    } else {
        assert(s.take(s.len() as int) =~= s);
    }
}

/// A text is blank exactly when trimming leaves nothing of it.
pub proof fn lemma_blank_iff_trimmed_empty(s: Seq<char>)
    ensures
        is_blank(s) <==> trimmed(s).len() == 0,
{
    lemma_trim_start_skip(s);
    lemma_trim_end_take(trim_start(s));
    if trimmed(s).len() == 0 {
        let t = trim_start(s);
        assert forall|i: int| 0 <= i < s.len() implies is_white_space(#[trigger] s[i]) by {
            if i >= leading_ws(s) {
                assert(t[i - leading_ws(s)] == s[i]);
            }
        }
    } else if is_blank(s) {
        assert(leading_ws(s) == s.len());
    }
}

/// Index range `[start, end)` of `chars` that remains after trimming.
fn trim_bounds(chars: &Vec<char>) -> (r: (usize, usize))
    ensures
        r.0 <= r.1 <= chars@.len(),
        chars@.subrange(r.0 as int, r.1 as int) == trimmed(chars@),
{
    let n = chars.len();
    let mut start: usize = 0;
    while start < n && white_space(chars[start])
        invariant
            start <= n == chars@.len(),
            forall|i: int| 0 <= i < start ==> is_white_space(#[trigger] chars@[i]),
        decreases n - start,
    {
        start += 1;
    }
    let mut end: usize = n;
    while end > start && white_space(chars[end - 1])
        invariant
            start <= end <= n == chars@.len(),
            forall|i: int| end <= i < n ==> is_white_space(#[trigger] chars@[i]),
        decreases end,
    {
        end -= 1;
    }
    proof {
        let s = chars@;
        lemma_trim_start_skip(s);
        // the leading run stops exactly at `start`
        assert(leading_ws(s) == start) by {
            if leading_ws(s) < start {
                assert(is_white_space(s[leading_ws(s) as int]));
            }
            if leading_ws(s) > start {
                assert(is_white_space(s[start as int]));
            }
        }
        let t = trim_start(s);
        lemma_trim_end_take(t);
        assert(t.len() - trailing_ws(t) == end - start) by {
            let k = t.len() - trailing_ws(t);
            if k < end - start {
                assert(t[k] == s[start + k]);
                assert(is_white_space(t[k]));
                if start + k >= end {
                } else {
                    assert(forall|i: int| k <= i < t.len() ==> is_white_space(#[trigger] t[i]));
                    assert(t[end - start - 1] == s[end - 1]);
                    assert(is_white_space(s[end - 1]));
                }
            }
            if k > end - start {
                if end > start {
                    assert(t[end - start] == s[end as int]);
                    assert(is_white_space(s[end as int]));
                    assert(!is_white_space(t[k - 1]));
                    assert(t[k - 1] == s[start + k - 1]);
                } else {
                    assert(t[0] == s[start as int]);
                    assert(!is_white_space(t[k - 1]));
                    assert(t[k - 1] == s[start + k - 1]);
                }
            }
        }
        assert(s.subrange(start as int, end as int) =~= t.take(t.len() - trailing_ws(t)));
    }
    (start, end)
}

/// `s` with leading and trailing white space removed (`str::trim`).
pub fn trim(s: &str) -> (r: String)
    ensures
        r@ == trimmed(s@),
{
    let chars = chars_of(s);
    let (start, end) = trim_bounds(&chars);
    string_from_chars(&chars, start, end)
}

/// Whether `s` holds nothing but white space (`s.trim().is_empty()`).
pub fn blank(s: &str) -> (r: bool)
    ensures
        r == is_blank(s@),
        r == (trimmed(s@).len() == 0),
{
    proof {
        lemma_blank_iff_trimmed_empty(s@);
    }
    let chars = chars_of(s);
    let n = chars.len();
    let mut i: usize = 0;
    while i < n
        invariant
            i <= n == chars@.len(),
            chars@ == s@,
            forall|j: int| 0 <= j < i ==> is_white_space(#[trigger] chars@[j]),
        decreases n - i,
    {
        if !white_space(chars[i]) {
            assert(!is_white_space(s@[i as int]));
            proof {
                lemma_blank_iff_trimmed_empty(s@);
            }
            return false;
        }
        i += 1;
    }
    true
}

/// Code point of `c` with an ASCII upper-case letter mapped to its lower case.
pub open spec fn ascii_lower(c: char) -> u32 {
    if 'A' <= c <= 'Z' {
        ((c as u32) + 32) as u32
    } else {
        c as u32
    }
}

/// The two texts are equal when ASCII letters are compared without case.
pub open spec fn equal_ignoring_ascii_case(a: Seq<char>, b: Seq<char>) -> bool {
    &&& a.len() == b.len()
    &&& forall|i: int| 0 <= i < a.len() ==> ascii_lower(#[trigger] a[i]) == ascii_lower(b[i])
}

fn lower_ascii_char(c: char) -> (r: u32)
    ensures
        r == ascii_lower(c),
{
    if 'A' <= c && c <= 'Z' {
        (c as u32) + 32
    } else {
        c as u32
    }
}

/// `str::eq_ignore_ascii_case`: equality up to ASCII letter case.
pub fn eq_ignore_ascii_case(a: &str, b: &str) -> (r: bool)
    ensures
        r == equal_ignoring_ascii_case(a@, b@),
{
    let ac = chars_of(a);
    let bc = chars_of(b);
    if ac.len() != bc.len() {
        return false;
    }
    let n = ac.len();
    let mut i: usize = 0;
    while i < n
        invariant
            i <= n == ac@.len() == bc@.len(),
            ac@ == a@,
            bc@ == b@,
            forall|j: int| 0 <= j < i ==> ascii_lower(#[trigger] ac@[j]) == ascii_lower(bc@[j]),
        decreases n - i,
    {
        if lower_ascii_char(ac[i]) != lower_ascii_char(bc[i]) {
            return false;
        }
        i += 1;
    }
    true
}

/// Left-aligns `s` in a field of `width` characters (`format!("{:<width$}", s)`):
/// spaces are added after it until it is `width` characters long.
pub fn pad_end(s: &str, width: usize) -> (r: String)
    ensures
        r@.len() == if s@.len() < width { width as nat } else { s@.len() },
        r@.take(s@.len() as int) == s@,
        forall|i: int| s@.len() <= i < r@.len() ==> #[trigger] r@[i] == ' ',
{
    let chars = chars_of(s);
    let mut out = string_from_chars(&chars, 0, chars.len());
    assert(chars@.subrange(0, chars@.len() as int) =~= s@);
    let mut k = chars.len();
    while k < width
        invariant
            chars@ == s@,
            chars@.len() <= k,
            k < width ==> out@.len() == k,
            k >= width ==> out@.len() == if s@.len() < width { width as nat } else { s@.len() },
            out@.len() == k || k == chars@.len(),
            out@.len() >= chars@.len(),
            out@.take(s@.len() as int) == s@,
            forall|i: int| s@.len() <= i < out@.len() ==> #[trigger] out@[i] == ' ',
        decreases width - k,
    {
        let ghost before = out@;
        push_char(&mut out, ' ');
        assert(out@.take(s@.len() as int) =~= before.take(s@.len() as int));
        k += 1;
    }
    out
}

/// `v` begins with `p`.
pub open spec fn has_prefix(v: Seq<char>, p: Seq<char>) -> bool {
    p.len() <= v.len() && v.take(p.len() as int) == p
}

/// `str::strip_prefix`: the rest of `s` after `prefix`, or `None` when `s` does
/// not begin with it.
pub fn strip_prefix(s: &str, prefix: &str) -> (r: Option<String>)
    ensures
        match r {
            Some(rest) => has_prefix(s@, prefix@) && rest@ == s@.skip(prefix@.len() as int),
            None => !has_prefix(s@, prefix@),
        },
{
    let sc = chars_of(s);
    let pc = chars_of(prefix);
    if pc.len() > sc.len() {
        return None;
    }
    let mut i: usize = 0;
    while i < pc.len()
        invariant
            i <= pc@.len() <= sc@.len(),
            sc@ == s@,
            pc@ == prefix@,
            forall|j: int| 0 <= j < i ==> #[trigger] sc@[j] == pc@[j],
        decreases pc@.len() - i,
    {
        if sc[i] != pc[i] {
            assert(s@.take(prefix@.len() as int)[i as int] != prefix@[i as int]);
            return None;
        }
        i += 1;
    }
    assert(s@.take(prefix@.len() as int) =~= prefix@);
    let rest = string_from_chars(&sc, pc.len(), sc.len());
    assert(sc@.subrange(pc@.len() as int, sc@.len() as int) =~= s@.skip(prefix@.len() as int));
    Some(rest)
}

/// Whether `c` occurs in `s`.
pub fn contains_char(s: &str, c: char) -> (r: bool)
    ensures
        r == s@.contains(c),
{
    let chars = chars_of(s);
    let mut i: usize = 0;
    while i < chars.len()
        invariant
            i <= chars@.len(),
            chars@ == s@,
            forall|j: int| 0 <= j < i ==> #[trigger] chars@[j] != c,
        decreases chars@.len() - i,
    {
        if chars[i] == c {
            assert(s@[i as int] == c);
            return true;
        }
        i += 1;
    }
    false
}

/// Whether some character of `s` is white space.
pub fn has_white_space(s: &str) -> (r: bool)
    ensures
        r == exists|i: int| 0 <= i < s@.len() && is_white_space(#[trigger] s@[i]),
{
    let chars = chars_of(s);
    let mut i: usize = 0;
    while i < chars.len()
        invariant
            i <= chars@.len(),
            chars@ == s@,
            forall|j: int| 0 <= j < i ==> !is_white_space(#[trigger] chars@[j]),
        decreases chars@.len() - i,
    {
        if white_space(chars[i]) {
            assert(is_white_space(s@[i as int]));
            return true;
        }
        i += 1;
    }
    false
}

/// A line without the carriage return that ended it.
pub open spec fn without_cr(line: Seq<char>) -> Seq<char> {
    if line.len() > 0 && line.last() == '\r' {
        line.drop_last()
    } else {
        line
    }
}

/// The lines of `s` (as `str::lines` gives them) when `cur` has already been
/// read of the current line: a line ends at `\n` (a `\r` before it is dropped),
/// and a last line without `\n` is kept as it is.
pub open spec fn lines_after(cur: Seq<char>, s: Seq<char>) -> Seq<Seq<char>>
    decreases s.len(),
{
    if s.len() == 0 {
        if cur.len() == 0 {
            Seq::empty()
        } else {
            seq![cur]
        }
    } else if s[0] == '\n' {
        seq![without_cr(cur)] + lines_after(Seq::empty(), s.drop_first())
    } else {
        lines_after(cur.push(s[0]), s.drop_first())
    }
}

/// The lines of `s`, as `str::lines` gives them.
pub open spec fn lines_of(s: Seq<char>) -> Seq<Seq<char>> {
    lines_after(Seq::empty(), s)
}

/// The views of a vector of strings.
pub open spec fn string_views(v: Seq<String>) -> Seq<Seq<char>> {
    v.map_values(|t: String| t@)
}

/// `str::lines`: the lines of `text`.
pub fn split_lines(text: &str) -> (r: Vec<String>)
    ensures
        string_views(r@) == lines_of(text@),
{
    let chars = chars_of(text);
    let n = chars.len();
    let mut out: Vec<String> = Vec::new();
    let mut start: usize = 0;
    let mut i: usize = 0;
    assert(chars@.skip(0) =~= chars@);
    assert(chars@.subrange(0, 0) =~= Seq::<char>::empty());
    assert(string_views(out@) =~= Seq::<Seq<char>>::empty());
    assert(lines_of(text@) =~= string_views(out@) + lines_of(text@));
    while i < n
        invariant
            start <= i <= n == chars@.len(),
            chars@ == text@,
            lines_of(text@) == string_views(out@) + lines_after(
                chars@.subrange(start as int, i as int),
                chars@.skip(i as int),
            ),
        decreases n - i,
    {
        let ghost cur = chars@.subrange(start as int, i as int);
        let ghost rest = chars@.skip(i as int);
        assert(rest[0] == chars@[i as int]);
        assert(rest.drop_first() =~= chars@.skip(i + 1));
        if chars[i] == '\n' {
            let end = if i > start && chars[i - 1] == '\r' {
                i - 1
            } else {
                i
            };
            let line = string_from_chars(&chars, start, end);
            assert(line@ =~= without_cr(cur));
            let ghost before = out@;
            out.push(line);
            assert(string_views(out@) =~= string_views(before).push(line@));
            assert(chars@.subrange(i + 1, i + 1) =~= Seq::<char>::empty());
            assert(string_views(out@) + lines_after(Seq::empty(), chars@.skip(i + 1))
                =~= string_views(before) + (seq![without_cr(cur)] + lines_after(
                Seq::empty(),
                rest.drop_first(),
            )));
            start = i + 1;
        } else {
            assert(cur.push(chars@[i as int]) =~= chars@.subrange(start as int, i + 1));
        }
        i += 1;
    }
    assert(chars@.skip(n as int) =~= Seq::<char>::empty());
    if start < n {
        let line = string_from_chars(&chars, start, n);
        let ghost before = out@;
        out.push(line);
        assert(string_views(out@) =~= string_views(before) + seq![line@]);
    } else {
        assert(string_views(out@) =~= string_views(out@) + Seq::<Seq<char>>::empty());
    }
    out
}

/// The last line of `ls` that is not blank.
pub open spec fn last_filled_line(ls: Seq<Seq<char>>) -> Option<Seq<char>>
    decreases ls.len(),
{
    if ls.len() == 0 {
        None
    } else if !is_blank(ls.last()) {
        Some(ls.last())
    } else {
        last_filled_line(ls.drop_last())
    }
}

/// Whether the two texts are the same.
pub fn same_text(a: &str, b: &str) -> (r: bool)
    ensures
        r == (a@ == b@),
{
    let x: String = a.to_owned();
    let y: String = b.to_owned();
    x == y
}

/// The `Debug` rendering of a string: quoted, with quotes, backslashes and
/// unprintable characters escaped.
pub uninterp spec fn debug_quoted(s: Seq<char>) -> Seq<char>;

/// Renders `s` with std's `Debug` impl for `str` (`format!("{s:?}")`).
/// Claimed: the rendering depends on the text alone; its escaping rules are
/// left unsaid.
#[verifier::external_body]
pub(crate) fn debug_text(s: &str) -> (r: String)
    ensures
        r@ == debug_quoted(s@),
{
    format!("{s:?}")
}

/// Trimming the end of `a + b` touches only `b` when `b` is not all white space.
pub(crate) proof fn lemma_trim_end_concat(a: Seq<char>, b: Seq<char>)
    requires
        trim_end(b).len() > 0,
    ensures
        trim_end(a + b) == a + trim_end(b),
    decreases b.len(),
{
    if b.len() == 0 {
    } else if is_white_space(b.last()) {
        assert((a + b).drop_last() =~= a + b.drop_last());
        assert((a + b).last() == b.last());
        lemma_trim_end_concat(a, b.drop_last());
    } else {
        assert((a + b).last() == b.last());
    }
}

} // verus!
