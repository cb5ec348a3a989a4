use vstd::prelude::*;

use crate::text::{chars_of, push_char, push_str, string_from_chars};

verus! {

/// What `char::is_alphanumeric` returns for `c` (Unicode `Alphabetic` or
/// `Numeric`).
pub uninterp spec fn char_is_alphanumeric(c: char) -> bool;

/// What `char::is_whitespace` returns for `c` (Unicode `White_Space`).
pub uninterp spec fn char_is_whitespace(c: char) -> bool;

/// What `format!("{:?}", c)` gives for `c`: the character quoted, escaped
/// where `char::escape_debug` escapes it.
pub uninterp spec fn char_debug_text(c: char) -> Seq<char>;

/// An ASCII letter or digit.
pub open spec fn is_ascii_alphanumeric(c: char) -> bool {
    ('0' <= c <= '9') || ('a' <= c <= 'z') || ('A' <= c <= 'Z')
}

/// `char::is_alphanumeric`. Besides naming its result, the contract states
/// what the documented definition (Unicode `Alphabetic` or a numeric general
/// category) gives: for ASCII characters exactly the letters and digits, and
/// never a character that `char::is_whitespace` accepts (Unicode gives no
/// `White_Space` character the `Alphabetic` property or a numeric category).
#[verifier::external_body]
fn is_alphanumeric(c: char) -> (r: bool)
    ensures
        r == char_is_alphanumeric(c),
        (c as u32) < 128 ==> (r <==> is_ascii_alphanumeric(c)),
        r ==> !char_is_whitespace(c),
{
    c.is_alphanumeric()
}

/// `char::is_whitespace`. Besides naming its result, the contract states
/// what the documented definition (Unicode `White_Space`) gives for ASCII
/// characters: space and `\t` to `\r` are whitespace, nothing else is.
#[verifier::external_body]
fn is_whitespace(c: char) -> (r: bool)
    ensures
        r == char_is_whitespace(c),
        (c as u32) < 128 ==> (r <==> (c == ' ' || ('\t' <= c <= '\r'))),
{
    c.is_whitespace()
}

/// `format!("{:?}", c)`: the `Debug` text of a character.
#[verifier::external_body]
fn char_debug(c: char) -> (s: String)
    ensures
        s@ == char_debug_text(c),
{
    format!("{c:?}")
}

/// ASCII whitespace: space and `\t` to `\r`.
pub open spec fn is_ascii_space(c: char) -> bool {
    c == ' ' || ('\t' <= c <= '\r')
}

/// Every character of `s` is ASCII.
pub open spec fn all_ascii(s: Seq<char>) -> bool {
    forall|i: int| 0 <= i < s.len() ==> (#[trigger] s[i] as u32) < 128
}

/// Which character classes a name is checked with: the Unicode ones that
/// `char::is_alphanumeric` and `char::is_whitespace` use, or the plain ASCII
/// ones (the same on ASCII text).
#[derive(Clone, Copy, Debug, PartialEq, Eq, Structural)]
pub enum CharClasses {
    Unicode,
    Ascii,
}

/// A letter or digit in the classes `m`.
pub open spec fn class_alphanumeric(m: CharClasses, c: char) -> bool {
    match m {
        CharClasses::Unicode => char_is_alphanumeric(c),
        CharClasses::Ascii => is_ascii_alphanumeric(c),
    }
}

/// Whitespace in the classes `m`.
pub open spec fn class_whitespace(m: CharClasses, c: char) -> bool {
    match m {
        CharClasses::Unicode => char_is_whitespace(c),
        CharClasses::Ascii => is_ascii_space(c),
    }
}

/// `s` without its leading whitespace.
pub open spec fn trim_start_in(m: CharClasses, s: Seq<char>) -> Seq<char>
    decreases s.len(),
{
    if s.len() > 0 && class_whitespace(m, s[0]) {
        trim_start_in(m, s.drop_first())
    } else {
        s
    }
}

/// `s` without its trailing whitespace.
pub open spec fn trim_end_in(m: CharClasses, s: Seq<char>) -> Seq<char>
    decreases s.len(),
{
    if s.len() > 0 && class_whitespace(m, s.last()) {
        trim_end_in(m, s.drop_last())
    } else {
        s
    }
}

/// `s` without leading and trailing whitespace; with the Unicode classes this
/// is what `str::trim` gives.
pub open spec fn trim_in(m: CharClasses, s: Seq<char>) -> Seq<char> {
    trim_end_in(m, trim_start_in(m, s))
}

proof fn lemma_trim_start(m: CharClasses, s: Seq<char>, i: int)
    requires
        0 <= i <= s.len(),
        forall|j: int| 0 <= j < i ==> class_whitespace(m, #[trigger] s[j]),
        i == s.len() || !class_whitespace(m, s[i]),
    ensures
        trim_start_in(m, s) == s.skip(i),
    decreases i,
{
    if i == 0 {
        assert(s.skip(0) =~= s);
    } else {
        assert(class_whitespace(m, s[0]));
        let rest = s.drop_first();
        assert forall|j: int| 0 <= j < i - 1 implies class_whitespace(m, #[trigger] rest[j]) by {
            assert(rest[j] == s[j + 1]);
        }
        if i < s.len() {
            assert(rest[i - 1] == s[i]);
        }
        lemma_trim_start(m, rest, i - 1);
        assert(rest.skip(i - 1) =~= s.skip(i));
    }
}

proof fn lemma_trim_end(m: CharClasses, s: Seq<char>, k: int)
    requires
        0 <= k <= s.len(),
        forall|j: int| k <= j < s.len() ==> class_whitespace(m, #[trigger] s[j]),
        k == 0 || !class_whitespace(m, s[k - 1]),
    ensures
        trim_end_in(m, s) == s.take(k),
    decreases s.len() - k,
{
    if k == s.len() {
        assert(s.take(k) =~= s);
    } else {
        assert(class_whitespace(m, s[s.len() - 1]));
        let rest = s.drop_last();
        assert forall|j: int| k <= j < rest.len() implies class_whitespace(m, #[trigger] rest[j]) by {
            assert(rest[j] == s[j]);
        }
        if k > 0 {
            assert(rest[k - 1] == s[k - 1]);
        }
        lemma_trim_end(m, rest, k);
        assert(rest.take(k) =~= s.take(k));
    }
}

/// `str::trim` on characters: the characters of `s` between its leading and
/// trailing whitespace. On ASCII text the ASCII classes give the same.
pub fn trim_whitespace(s: &Vec<char>) -> (t: Vec<char>)
    ensures
        t@ == trim_in(CharClasses::Unicode, s@),
        t@.len() > 0 ==> !char_is_whitespace(t@[0]),
        all_ascii(s@) ==> t@ == trim_in(CharClasses::Ascii, s@) && all_ascii(t@),
{
    let ghost ascii = all_ascii(s@);
    let n = s.len();
    let mut i: usize = 0;
    while i < n && is_whitespace(s[i])
        invariant
            i <= n == s.len(),
            ascii == all_ascii(s@),
            forall|j: int| 0 <= j < i ==> char_is_whitespace(#[trigger] s@[j]),
            ascii ==> forall|j: int| 0 <= j < i ==> is_ascii_space(#[trigger] s@[j]),
        decreases n - i,
    {
        i = i + 1;
    }
    proof {
        lemma_trim_start(CharClasses::Unicode, s@, i as int);
        if ascii {
            if i < n {
                assert((s@[i as int] as u32) < 128);
            }
            lemma_trim_start(CharClasses::Ascii, s@, i as int);
        }
    }
    let ghost head = s@.skip(i as int);
    let mut k: usize = n;
    while k > i && is_whitespace(s[k - 1])
        invariant
            i <= k <= n == s.len(),
            ascii == all_ascii(s@),
            forall|j: int| k <= j < n ==> char_is_whitespace(#[trigger] s@[j]),
            ascii ==> forall|j: int| k <= j < n ==> is_ascii_space(#[trigger] s@[j]),
        decreases k,
    {
        proof {
            if ascii {
                assert((s@[k - 1] as u32) < 128);
            }
        }
        k = k - 1;
    }
    proof {
        assert forall|j: int| k - i <= j < head.len() implies char_is_whitespace(#[trigger] head[j]) by {
            assert(head[j] == s@[i + j]);
        }
        if k > i {
            assert(head[k - i - 1] == s@[k - 1]);
        }
        lemma_trim_end(CharClasses::Unicode, head, k - i);
        if ascii {
            assert forall|j: int| k - i <= j < head.len() implies is_ascii_space(#[trigger] head[j]) by {
                assert(head[j] == s@[i + j]);
            }
            if k > i {
                assert((s@[k - 1] as u32) < 128);
            }
            lemma_trim_end(CharClasses::Ascii, head, k - i);
        }
    }
    let mut t: Vec<char> = Vec::new();
    let mut j: usize = i;
    while j < k
        invariant
            i <= j <= k <= n == s.len(),
            t@ == s@.subrange(i as int, j as int),
        decreases k - j,
    {
        t.push(s[j]);
        j = j + 1;
        assert(t@ =~= s@.subrange(i as int, j as int));
    }
    assert(t@ =~= head.take(k - i));
    proof {
        if ascii {
            assert forall|q: int| 0 <= q < t@.len() implies (#[trigger] t@[q] as u32) < 128 by {
                assert(t@[q] == s@[i + q]);
            }
        }
    }
    t
}

/// A character that a name keeps as it is.
pub open spec fn name_char_kept_in(m: CharClasses, c: char) -> bool {
    class_alphanumeric(m, c) || c == '-' || c == '_' || c == '.'
}

/// A character that a name keeps as it is (Unicode classes).
pub open spec fn name_char_kept(c: char) -> bool {
    name_char_kept_in(CharClasses::Unicode, c)
}

/// Normalizes the characters of a name, left to right: kept characters stay,
/// a run of whitespace becomes one `-` (none right after a `-`), and the
/// first other character is reported. `after_dash` says whether the
/// character before `s` was a `-`.
pub open spec fn normalize_name_in(m: CharClasses, s: Seq<char>, after_dash: bool) -> Result<
    Seq<char>,
    char,
>
    decreases s.len(),
{
    if s.len() == 0 {
        Ok(Seq::<char>::empty())
    } else {
        let c = s[0];
        let rest = s.drop_first();
        if name_char_kept_in(m, c) {
            match normalize_name_in(m, rest, c == '-') {
                Ok(t) => Ok(seq![c] + t),
                Err(e) => Err(e),
            }
        } else if class_whitespace(m, c) {
            if after_dash {
                normalize_name_in(m, rest, true)
            } else {
                match normalize_name_in(m, rest, true) {
                    Ok(t) => Ok(seq!['-'] + t),
                    Err(e) => Err(e),
                }
            }
        } else {
            Err(c)
        }
    }
}

/// `.` or `..`.
pub open spec fn is_dot_name(n: Seq<char>) -> bool {
    (n.len() == 1 && n[0] == '.') || (n.len() == 2 && n[0] == '.' && n[1] == '.')
}

/// The longest name, in characters.
pub const NAME_MAX_CHARS: usize = 80;

/// The message for a name with a character that names do not allow.
pub open spec fn unsupported_character_message(c: char) -> Seq<char> {
    "name contains unsupported character: "@ + char_debug_text(c)
        + "; use letters, numbers, spaces, dot, dash, or underscore"@
}

/// What a `--name` argument gives under the classes `m`: the safe label, or
/// the message that rejects it.
pub open spec fn name_result_in(m: CharClasses, value: Seq<char>) -> Result<Seq<char>, Seq<char>> {
    let t = trim_in(m, value);
    if t.len() == 0 {
        Err("name cannot be empty"@)
    } else if t.len() > NAME_MAX_CHARS {
        Err("name cannot exceed 80 characters"@)
    } else if t[0] == '.' {
        Err("name cannot start with a dot"@)
    } else {
        match normalize_name_in(m, t, false) {
            Err(c) => Err(unsupported_character_message(c)),
            Ok(n) => if is_dot_name(n) {
                Err("name must not be . or .."@)
            } else {
                Ok(n)
            },
        }
    }
}

/// What a `--name` argument gives (Unicode classes, as `parse_name` uses).
pub open spec fn name_result(value: Seq<char>) -> Result<Seq<char>, Seq<char>> {
    name_result_in(CharClasses::Unicode, value)
}

spec fn prepend_result(out: Seq<char>, r: Result<Seq<char>, char>) -> Result<Seq<char>, char> {
    match r {
        Ok(t) => Ok(out + t),
        Err(e) => Err(e),
    }
}

/// Checks and normalizes a `--name` label: surrounding whitespace is
/// trimmed; letters, digits (Unicode), `-`, `_` and `.` are kept; each run
/// of whitespace becomes a single `-`; anything else, an empty name, one
/// longer than 80 characters, one starting with a dot (hidden) and `.` or
/// `..` are refused. On ASCII text the result is the one the plain ASCII
/// classes give. A name it accepts holds no path separator (`/` or `\`) and
/// no whitespace, and is accepted again unchanged.
pub fn parse_name(value: &str) -> (r: Result<String, String>)
    ensures
        match name_result(value@) {
            Ok(n) => r matches Ok(s) && s@ == n,
            Err(m) => r matches Err(e) && e@ == m,
        },
        all_ascii(value@) ==> match name_result_in(CharClasses::Ascii, value@) {
            Ok(n) => r matches Ok(s) && s@ == n,
            Err(m) => r matches Err(e) && e@ == m,
        },
        r matches Ok(s) ==> {
            &&& 1 <= s@.len() <= NAME_MAX_CHARS
            &&& s@[0] != '.'
            &&& forall|i: int| 0 <= i < s@.len() ==> name_char_kept(#[trigger] s@[i])
            &&& forall|i: int|
                0 <= i < s@.len() ==> #[trigger] s@[i] != '/' && s@[i] != '\\' && !is_ascii_space(s@[i])
            &&& forall|i: int| 0 <= i < s@.len() && (#[trigger] s@[i] as u32) >= 128 ==> !char_is_whitespace(s@[i])
            &&& name_result(s@) == Ok::<Seq<char>, Seq<char>>(s@)
        },
{
    let ghost ascii = all_ascii(value@);
    let all = chars_of(value);
    let t = trim_whitespace(&all);
    if t.len() == 0 {
        return Err(String::from_str("name cannot be empty"));
    }
    if t.len() > NAME_MAX_CHARS {
        return Err(String::from_str("name cannot exceed 80 characters"));
    }
    if t[0] == '.' {
        return Err(String::from_str("name cannot start with a dot"));
    }
    let mut out: Vec<char> = Vec::new();
    let mut after_dash = false;
    let mut i: usize = 0;
    assert(t@.skip(0) =~= t@);
    while i < t.len()
        invariant
            i <= t.len(),
            ascii == all_ascii(value@),
            t@ == trim_in(CharClasses::Unicode, value@),
            ascii ==> t@ == trim_in(CharClasses::Ascii, value@) && all_ascii(t@),
            t@.len() > 0,
            t@.len() <= NAME_MAX_CHARS,
            !char_is_whitespace(t@[0]),
            i == 0 ==> out@.len() == 0,
            t@[0] != '.',
            normalize_name_in(CharClasses::Unicode, t@, false) == prepend_result(
                out@,
                normalize_name_in(CharClasses::Unicode, t@.skip(i as int), after_dash),
            ),
            ascii ==> normalize_name_in(CharClasses::Ascii, t@, false) == prepend_result(
                out@,
                normalize_name_in(CharClasses::Ascii, t@.skip(i as int), after_dash),
            ),
            i > 0 ==> out@.len() > 0 && out@[0] == t@[0],
            out@.len() <= i,
            forall|j: int| 0 <= j < out@.len() ==> name_char_kept(#[trigger] out@[j]),
            forall|j: int|
                0 <= j < out@.len() ==> #[trigger] out@[j] != '/' && out@[j] != '\\' && !is_ascii_space(
                    out@[j],
                ),
            forall|j: int| 0 <= j < out@.len() && (#[trigger] out@[j] as u32) >= 128 ==> !char_is_whitespace(out@[j]),
        decreases t.len() - i,
    {
        let c = t[i];
        let ghost rest = t@.skip(i as int);
        assert(rest[0] == c);
        assert(rest.drop_first() =~= t@.skip(i + 1));
        proof {
            if ascii {
                assert((t@[i as int] as u32) < 128);
            }
        }
        if is_alphanumeric(c) || c == '-' || c == '_' || c == '.' {
            proof {
                assert(c != '/' && c != '\\' && !is_ascii_space(c)) by {
                    if c == '/' || c == '\\' || is_ascii_space(c) {
                        assert(!is_ascii_alphanumeric(c));
                    }
                }
            }
            let ghost before = out@;
            out.push(c);
            after_dash = c == '-';
            proof {
                match normalize_name_in(CharClasses::Unicode, t@.skip(i + 1), after_dash) {
                    Ok(u) => {
                        assert(before + (seq![c] + u) =~= out@ + u);
                    },
                    Err(_) => {},
                }
                if ascii {
                    match normalize_name_in(CharClasses::Ascii, t@.skip(i + 1), after_dash) {
                        Ok(u) => {
                            assert(before + (seq![c] + u) =~= out@ + u);
                        },
                        Err(_) => {},
                    }
                }
            }
        } else if is_whitespace(c) {
            if !after_dash {
                let ghost before = out@;
                out.push('-');
                proof {
                    match normalize_name_in(CharClasses::Unicode, t@.skip(i + 1), true) {
                        Ok(u) => {
                            assert(before + (seq!['-'] + u) =~= out@ + u);
                        },
                        Err(_) => {},
                    }
                    if ascii {
                        match normalize_name_in(CharClasses::Ascii, t@.skip(i + 1), true) {
                            Ok(u) => {
                                assert(before + (seq!['-'] + u) =~= out@ + u);
                            },
                            Err(_) => {},
                        }
                    }
                }
                after_dash = true;
            }
        } else {
            let mut message = String::from_str("name contains unsupported character: ");
            let shown = char_debug(c);
            push_str(&mut message, shown.as_str());
            push_str(&mut message, "; use letters, numbers, spaces, dot, dash, or underscore");
            assert(normalize_name_in(CharClasses::Unicode, t@.skip(i as int), after_dash) == Err::<
                Seq<char>,
                char,
            >(c));
            assert(ascii ==> normalize_name_in(CharClasses::Ascii, t@.skip(i as int), after_dash)
                == Err::<Seq<char>, char>(c));
            assert(message@ == unsupported_character_message(c));
            return Err(message);
        }
        i = i + 1;
    }
    assert(t@.skip(t.len() as int) =~= Seq::<char>::empty());
    assert(out@ + Seq::<char>::empty() =~= out@);
    let n = out.len();
    if (n == 1 && out[0] == '.') || (n == 2 && out[0] == '.' && out[1] == '.') {
        return Err(String::from_str("name must not be . or .."));
    }
    proof {
        lemma_name_is_stable(CharClasses::Unicode, value@);
    }
    Ok(string_from_chars(out.as_slice()))
}

proof fn lemma_trim_start_shape(m: CharClasses, s: Seq<char>)
    ensures
        trim_start_in(m, s).len() <= s.len(),
        trim_start_in(m, s) == s.skip(s.len() - trim_start_in(m, s).len()),
        trim_start_in(m, s).len() > 0 ==> !class_whitespace(m, trim_start_in(m, s)[0]),
    decreases s.len(),
{
    if s.len() > 0 && class_whitespace(m, s[0]) {
        lemma_trim_start_shape(m, s.drop_first());
        let r = trim_start_in(m, s.drop_first());
        assert(s.drop_first().skip(s.drop_first().len() - r.len()) =~= s.skip(s.len() - r.len()));
    } else {
        assert(s.skip(0) =~= s);
    }
}

proof fn lemma_trim_end_shape(m: CharClasses, s: Seq<char>)
    ensures
        trim_end_in(m, s).len() <= s.len(),
        trim_end_in(m, s) == s.take(trim_end_in(m, s).len() as int),
        trim_end_in(m, s).len() > 0 ==> !class_whitespace(m, trim_end_in(m, s).last()),
    decreases s.len(),
{
    if s.len() > 0 && class_whitespace(m, s.last()) {
        lemma_trim_end_shape(m, s.drop_last());
        let r = trim_end_in(m, s.drop_last());
        assert(s.drop_last().take(r.len() as int) =~= s.take(r.len() as int));
    } else {
        assert(s.take(s.len() as int) =~= s);
    }
}

proof fn lemma_trim_shape(m: CharClasses, s: Seq<char>)
    ensures
        trim_in(m, s).len() <= s.len(),
        trim_in(m, s).len() > 0 ==> !class_whitespace(m, trim_in(m, s)[0]) && !class_whitespace(
            m,
            trim_in(m, s).last(),
        ),
        all_ascii(s) ==> all_ascii(trim_in(m, s)),
{
    lemma_trim_start_shape(m, s);
    let u = trim_start_in(m, s);
    lemma_trim_end_shape(m, u);
    let t = trim_in(m, s);
    if t.len() > 0 {
        assert(t[0] == u[0]);
    }
    if all_ascii(s) {
        assert forall|q: int| 0 <= q < t.len() implies (#[trigger] t[q] as u32) < 128 by {
            assert(t[q] == u[q]);
            assert(u[q] == s[s.len() - u.len() + q]);
        }
    }
}

proof fn lemma_normalize_shape(m: CharClasses, s: Seq<char>, after_dash: bool)
    ensures
        normalize_name_in(m, s, after_dash) matches Ok(o) ==> {
            &&& o.len() <= s.len()
            &&& forall|k: int| 0 <= k < o.len() ==> name_char_kept_in(m, #[trigger] o[k])
            &&& all_ascii(s) ==> all_ascii(o)
            &&& s.len() > 0 && name_char_kept_in(m, s[0]) ==> o.len() > 0 && o[0] == s[0]
            &&& s.len() > 0 && name_char_kept_in(m, s.last()) ==> o.len() > 0 && o.last() == s.last()
            &&& forall|k: int|
                0 <= k < s.len() ==> name_char_kept_in(m, #[trigger] s[k]) || class_whitespace(m, s[k])
        },
    decreases s.len(),
{
    if s.len() > 0 {
        let rest = s.drop_first();
        lemma_normalize_shape(m, rest, s[0] == '-');
        lemma_normalize_shape(m, rest, true);
        if all_ascii(s) {
            assert forall|q: int| 0 <= q < rest.len() implies (#[trigger] rest[q] as u32) < 128 by {
                assert(rest[q] == s[q + 1]);
            }
            assert((s[0] as u32) < 128);
        }
        match normalize_name_in(m, s, after_dash) {
            Ok(o) => {
                assert forall|k: int| 0 <= k < s.len() implies name_char_kept_in(m, #[trigger] s[k])
                    || class_whitespace(m, s[k]) by {
                    if k > 0 {
                        assert(s[k] == rest[k - 1]);
                    }
                }
                if rest.len() > 0 {
                    assert(rest.last() == s.last());
                }
                if name_char_kept_in(m, s[0]) {
                    let u = normalize_name_in(m, rest, s[0] == '-')->Ok_0;
                    assert(o == seq![s[0]] + u);
                    if rest.len() > 0 && name_char_kept_in(m, s.last()) {
                        assert(o.last() == u.last());
                    }
                    assert forall|k: int| 0 <= k < o.len() implies name_char_kept_in(m, #[trigger] o[k]) by {
                        if k > 0 {
                            assert(o[k] == u[k - 1]);
                        }
                    }
                    if all_ascii(s) {
                        assert forall|k: int| 0 <= k < o.len() implies (#[trigger] o[k] as u32) < 128 by {
                            if k > 0 {
                                assert(o[k] == u[k - 1]);
                            }
                        }
                    }
                } else if !after_dash {
                    let u = normalize_name_in(m, rest, true)->Ok_0;
                    assert(o == seq!['-'] + u);
                    if rest.len() > 0 && name_char_kept_in(m, s.last()) {
                        assert(o.last() == u.last());
                    }
                    assert forall|k: int| 0 <= k < o.len() implies name_char_kept_in(m, #[trigger] o[k]) by {
                        if k > 0 {
                            assert(o[k] == u[k - 1]);
                        }
                    }
                    if all_ascii(s) {
                        assert forall|k: int| 0 <= k < o.len() implies (#[trigger] o[k] as u32) < 128 by {
                            if k > 0 {
                                assert(o[k] == u[k - 1]);
                            }
                        }
                    }
                }
            },
            Err(_) => {},
        }
    }
}

proof fn lemma_normalize_kept(m: CharClasses, s: Seq<char>, after_dash: bool)
    requires
        forall|k: int| 0 <= k < s.len() ==> name_char_kept_in(m, #[trigger] s[k]),
    ensures
        normalize_name_in(m, s, after_dash) == Ok::<Seq<char>, char>(s),
    decreases s.len(),
{
    if s.len() > 0 {
        let rest = s.drop_first();
        assert forall|k: int| 0 <= k < rest.len() implies name_char_kept_in(m, #[trigger] rest[k]) by {
            assert(rest[k] == s[k + 1]);
        }
        assert(name_char_kept_in(m, s[0]));
        lemma_normalize_kept(m, rest, s[0] == '-');
        assert(seq![s[0]] + rest =~= s);
    } else {
        assert(s =~= Seq::<char>::empty());
    }
}

/// A name that is accepted is accepted again, unchanged: normalizing a name
/// twice gives what normalizing it once gave (with either character classes;
/// an accepted ASCII name stays ASCII).
pub proof fn lemma_name_is_stable(m: CharClasses, value: Seq<char>)
    requires
        name_result_in(m, value) is Ok,
    ensures
        name_result_in(m, name_result_in(m, value)->Ok_0) == Ok::<Seq<char>, Seq<char>>(
            name_result_in(m, value)->Ok_0,
        ),
        all_ascii(value) ==> all_ascii(name_result_in(m, value)->Ok_0),
{
    let t = trim_in(m, value);
    lemma_trim_shape(m, value);
    let n = name_result_in(m, value)->Ok_0;
    lemma_normalize_shape(m, t, false);
    assert(normalize_name_in(m, t, false) == Ok::<Seq<char>, char>(n));
    // The first and last characters of `t` are no whitespace, so they were kept.
    assert(name_char_kept_in(m, t[0]) || class_whitespace(m, t[0]));
    assert(name_char_kept_in(m, t[t.len() - 1]) || class_whitespace(m, t[t.len() - 1]));
    assert(n.len() > 0 && n[0] == t[0] && n.last() == t.last());
    lemma_trim_start(m, n, 0);
    assert(n.skip(0) =~= n);
    lemma_trim_end(m, n, n.len() as int);
    assert(n.take(n.len() as int) =~= n);
    assert(trim_in(m, n) == n);
    lemma_normalize_kept(m, n, false);
}

/// Every letter or digit is kept: a name made only of characters that are
/// alphanumeric (and so not whitespace) in the classes `m`, not starting with
/// a dot and at most 80 characters long, is accepted exactly as it is.
pub proof fn lemma_alphanumeric_names_are_kept(m: CharClasses, value: Seq<char>)
    requires
        1 <= value.len() <= NAME_MAX_CHARS,
        value[0] != '.',
        forall|i: int|
            0 <= i < value.len() ==> class_alphanumeric(m, #[trigger] value[i]) && !class_whitespace(
                m,
                value[i],
            ),
    ensures
        name_result_in(m, value) == Ok::<Seq<char>, Seq<char>>(value),
{
    lemma_trim_start(m, value, 0);
    assert(value.skip(0) =~= value);
    lemma_trim_end(m, value, value.len() as int);
    assert(value.take(value.len() as int) =~= value);
    assert forall|k: int| 0 <= k < value.len() implies name_char_kept_in(m, #[trigger] value[k]) by {
        assert(class_alphanumeric(m, value[k]));
    }
    lemma_normalize_kept(m, value, false);
}

/// On ASCII text every letter and digit is kept: a name made only of ASCII
/// letters and digits, at most 80 characters long, is accepted exactly as it
/// is (so `parse_name` returns it unchanged).
pub proof fn lemma_ascii_alphanumeric_names_are_kept(value: Seq<char>)
    requires
        1 <= value.len() <= NAME_MAX_CHARS,
        forall|i: int| 0 <= i < value.len() ==> is_ascii_alphanumeric(#[trigger] value[i]),
    ensures
        all_ascii(value),
        name_result_in(CharClasses::Ascii, value) == Ok::<Seq<char>, Seq<char>>(value),
{
    assert forall|i: int| 0 <= i < value.len() implies (#[trigger] value[i] as u32) < 128 by {
        assert(is_ascii_alphanumeric(value[i]));
    }
    assert(is_ascii_alphanumeric(value[0]));
    lemma_alphanumeric_names_are_kept(CharClasses::Ascii, value);
}

/// A log value on one line: each `\n`, `\r` and `\t` becomes a space.
pub open spec fn clean_log_text(value: Seq<char>) -> Seq<char> {
    Seq::new(
        value.len(),
        |i: int|
            if value[i] == '\n' || value[i] == '\r' || value[i] == '\t' {
                ' '
            } else {
                value[i]
            },
    )
}

/// Puts a value on one line for the log: each newline, carriage return and
/// tab becomes a space; every other character is kept.
pub fn clean_log_value(value: &str) -> (s: String)
    ensures
        s@ == clean_log_text(value@),
        s@.len() == value@.len(),
        forall|i: int| 0 <= i < s@.len() ==> #[trigger] s@[i] != '\n' && s@[i] != '\r' && s@[i] != '\t',
{
    let cs = chars_of(value);
    let mut s = String::new();
    let mut i: usize = 0;
    while i < cs.len()
        invariant
            i <= cs.len(),
            cs@ == value@,
            s@ == clean_log_text(value@).take(i as int),
        decreases cs.len() - i,
    {
        let c = cs[i];
        if c == '\n' || c == '\r' || c == '\t' {
            push_char(&mut s, ' ');
        } else {
            push_char(&mut s, c);
        }
        i = i + 1;
        assert(s@ =~= clean_log_text(value@).take(i as int));
    }
    assert(clean_log_text(value@).take(cs.len() as int) =~= clean_log_text(value@));
    s
}

} // verus!
