//! Character-level text operations: whitespace classification, first
//! occurrence of a character, trimming, splitting on a separator, and
//! whitespace tokenization.
//!
//! Each operation has a specification-level definition over `Seq<char>` and
//! an executable counterpart proved against it.  The parser's contracts are
//! stated entirely in terms of the definitions in this module.

use vstd::prelude::*;

verus! {

/// Whether `c` is a whitespace character, by the White_Space property that
/// `char::is_whitespace` documents.
pub open spec fn is_shell_ws(c: char) -> bool {
    ||| c == ' '
    ||| c == '\t'
    ||| c == '\n'
    ||| c == '\u{0b}'
    ||| c == '\u{0c}'
    ||| c == '\r'
    ||| c == '\u{85}'
    ||| c == '\u{a0}'
    ||| c == '\u{1680}'
    ||| c == '\u{2000}'
    ||| c == '\u{2001}'
    ||| c == '\u{2002}'
    ||| c == '\u{2003}'
    ||| c == '\u{2004}'
    ||| c == '\u{2005}'
    ||| c == '\u{2006}'
    ||| c == '\u{2007}'
    ||| c == '\u{2008}'
    ||| c == '\u{2009}'
    ||| c == '\u{200a}'
    ||| c == '\u{2028}'
    ||| c == '\u{2029}'
    ||| c == '\u{202f}'
    ||| c == '\u{205f}'
    ||| c == '\u{3000}'
}

/// Whether `c` is a whitespace character.
pub fn is_ws_char(c: char) -> (b: bool)
    ensures
        b == is_shell_ws(c),
{
    match c {
        ' ' | '\t' | '\n' | '\u{0b}' | '\u{0c}' | '\r' | '\u{85}' | '\u{a0}' | '\u{1680}'
        | '\u{2000}' | '\u{2001}' | '\u{2002}' | '\u{2003}' | '\u{2004}' | '\u{2005}'
        | '\u{2006}' | '\u{2007}' | '\u{2008}' | '\u{2009}' | '\u{200a}' | '\u{2028}'
        | '\u{2029}' | '\u{202f}' | '\u{205f}' | '\u{3000}' => true,
        _ => false,
    }
}

/// Index of the first occurrence of `c` in `s` at position `i` or later,
/// if there is one.
pub open spec fn find_from(s: Seq<char>, c: char, i: int) -> Option<int>
    decreases s.len() - i,
{
    if i >= s.len() {
        None
    } else if s[i] == c {
        Some(i)
    } else {
        find_from(s, c, i + 1)
    }
}

/// Index of the first occurrence of `c` in `s`, if there is one.
pub open spec fn first_pos(s: Seq<char>, c: char) -> Option<int> {
    find_from(s, c, 0)
}

/// Whether `c` occurs anywhere in `s`.
pub open spec fn has_char(s: Seq<char>, c: char) -> bool {
    exists|k: int| 0 <= k < s.len() && s[k] == c
}

/// What a result of `find_from` means: the index found is in range, holds
/// `c`, and no position from `i` up to it does; `None` means no position
/// from `i` on holds `c`.
pub proof fn lemma_find_from(s: Seq<char>, c: char, i: int)
    requires
        0 <= i,
    ensures
        (match find_from(s, c, i) {
            Some(j) => i <= j < s.len() && s[j] == c && (forall|k: int| i <= k < j ==> s[k] != c),
            None => forall|k: int| i <= k < s.len() ==> s[k] != c,
        }),
    decreases s.len() - i,
{
    if i >= s.len() {
    } else if s[i] == c {
    } else {
        lemma_find_from(s, c, i + 1);
    }
}

/// `first_pos` and `has_char` agree.
pub proof fn lemma_first_pos_has_char(s: Seq<char>, c: char)
    ensures
        has_char(s, c) == (first_pos(s, c) is Some),
{
    lemma_find_from(s, c, 0);
    if has_char(s, c) {
        let k = choose|k: int| 0 <= k < s.len() && s[k] == c;
        assert(first_pos(s, c) is Some);
    }
}

/// Index of the first occurrence of `c` in `s`, if there is one.
pub fn find_char(s: &str, c: char) -> (r: Option<usize>)
    ensures
        (match r {
            Some(j) => first_pos(s@, c) == Some(j as int),
            None => first_pos(s@, c) is None,
        }),
{
    let n = s.unicode_len();
    let mut i: usize = 0;
    while i < n
        invariant
            0 <= i <= n,
            n == s@.len(),
            find_from(s@, c, 0) == find_from(s@, c, i as int),
        decreases n - i,
    {
        if s.get_char(i) == c {
            return Some(i);
        }
        i = i + 1;
    }
    None
}

/// Index of the first non-whitespace character of `s` at position `i` or
/// later, or `s.len()` if every later character is whitespace.
pub open spec fn ws_end(s: Seq<char>, i: int) -> int
    decreases s.len() - i,
{
    if i >= s.len() {
        s.len() as int
    } else if is_shell_ws(s[i]) {
        ws_end(s, i + 1)
    } else {
        i
    }
}

/// One past the last non-whitespace character of `s` strictly before
/// position `j`, or `0` if every earlier character is whitespace.
pub open spec fn ws_start_rev(s: Seq<char>, j: int) -> int
    decreases j,
{
    if j <= 0 {
        0
    } else if is_shell_ws(s[j - 1]) {
        ws_start_rev(s, j - 1)
    } else {
        j
    }
}

/// `s` with leading and trailing whitespace removed.
pub open spec fn trim_spec(s: Seq<char>) -> Seq<char> {
    let a = ws_end(s, 0);
    let b = ws_start_rev(s, s.len() as int);
    if a <= b {
        s.subrange(a, b)
    } else {
        Seq::empty()
    }
}

/// What `ws_end` returns: an index between `i` and `s.len()`, with only
/// whitespace before it (from `i` on) and, unless it is `s.len()`, a
/// non-whitespace character at it.
pub proof fn lemma_ws_end(s: Seq<char>, i: int)
    requires
        0 <= i <= s.len(),
    ensures
        i <= ws_end(s, i) <= s.len(),
        forall|k: int| i <= k < ws_end(s, i) ==> is_shell_ws(s[k]),
        ws_end(s, i) < s.len() ==> !is_shell_ws(s[ws_end(s, i)]),
    decreases s.len() - i,
{
    if i >= s.len() {
    } else if is_shell_ws(s[i]) {
        lemma_ws_end(s, i + 1);
    }
}

/// What `ws_start_rev` returns: an index between `0` and `j`, with only
/// whitespace from it up to `j` and, unless it is `0`, a non-whitespace
/// character just before it.
pub proof fn lemma_ws_start_rev(s: Seq<char>, j: int)
    requires
        j <= s.len(),
    ensures
        0 <= ws_start_rev(s, j) <= j || j < 0,
        forall|k: int| ws_start_rev(s, j) <= k < j ==> is_shell_ws(s[k]),
        ws_start_rev(s, j) > 0 ==> !is_shell_ws(s[ws_start_rev(s, j) - 1]),
    decreases j,
{
    if j <= 0 {
    } else if is_shell_ws(s[j - 1]) {
        lemma_ws_start_rev(s, j - 1);
    }
}

/// The shape of a trimmed sequence: it is the subrange of `s` between the
/// first and last non-whitespace characters, it starts and ends with
/// non-whitespace unless it is empty, and it is empty exactly when `s` is
/// all whitespace.
pub proof fn lemma_trim(s: Seq<char>)
    ensures
        trim_spec(s).len() <= s.len(),
        trim_spec(s).len() > 0 ==> !is_shell_ws(trim_spec(s)[0]),
        trim_spec(s).len() > 0 ==> !is_shell_ws(trim_spec(s)[trim_spec(s).len() - 1]),
        (trim_spec(s).len() == 0) == (forall|k: int| 0 <= k < s.len() ==> is_shell_ws(s[k])),
        0 <= ws_end(s, 0),
        ws_end(s, 0) + trim_spec(s).len() <= s.len(),
        forall|k: int|
            0 <= k < trim_spec(s).len() ==> trim_spec(s)[k] == s[ws_end(s, 0) + k],
{
    let a = ws_end(s, 0);
    let b = ws_start_rev(s, s.len() as int);
    lemma_ws_end(s, 0);
    lemma_ws_start_rev(s, s.len() as int);
    if a < b {
        assert(!is_shell_ws(s[a]));
        assert(!is_shell_ws(s[b - 1]));
    } else {
        assert forall|k: int| 0 <= k < s.len() implies is_shell_ws(s[k]) by {
            if k >= a {
                assert(b <= k);
            }
        }
    }
}

/// A sequence that starts and ends with non-whitespace characters trims to
/// itself.
pub proof fn lemma_trim_noop(s: Seq<char>)
    requires
        s.len() > 0,
        !is_shell_ws(s[0]),
        !is_shell_ws(s[s.len() - 1]),
    ensures
        trim_spec(s) == s,
{
    assert(ws_end(s, 0) == 0);
    assert(ws_start_rev(s, s.len() as int) == s.len());
    assert(trim_spec(s) =~= s);
}

/// `s` with leading and trailing whitespace removed.
pub fn trim_str<'a>(s: &'a str) -> (r: &'a str)
    ensures
        r@ == trim_spec(s@),
{
    let n = s.unicode_len();
    let mut a: usize = 0;
    while a < n && is_ws_char(s.get_char(a))
        invariant
            0 <= a <= n,
            n == s@.len(),
            ws_end(s@, 0) == ws_end(s@, a as int),
        decreases n - a,
    {
        a = a + 1;
    }
    assert(ws_end(s@, 0) == a as int);
    let mut b: usize = n;
    while b > 0 && is_ws_char(s.get_char(b - 1))
        invariant
            0 <= b <= n,
            n == s@.len(),
            ws_start_rev(s@, n as int) == ws_start_rev(s@, b as int),
        decreases b,
    {
        b = b - 1;
    }
    assert(ws_start_rev(s@, n as int) == b as int);
    if a < b {
        s.substring_char(a, b)
    } else {
        let r = s.substring_char(0, 0);
        assert(r@ =~= trim_spec(s@));
        r
    }
}

/// Whether `c` occurs anywhere in `s`.
pub fn contains_char(s: &str, c: char) -> (b: bool)
    ensures
        b == has_char(s@, c),
{
    proof {
        lemma_first_pos_has_char(s@, c);
    }
    match find_char(s, c) {
        Some(_) => true,
        None => false,
    }
}

/// The pieces of `s` from position `i` on, split at every occurrence of
/// `sep`.  Splitting an empty remainder gives one empty piece, as
/// `str::split` does.
pub open spec fn split_from(s: Seq<char>, sep: char, i: int) -> Seq<Seq<char>>
    decreases s.len() - i,
{
    if i >= s.len() {
        seq![Seq::<char>::empty()]
    } else if s[i] == sep {
        seq![Seq::<char>::empty()] + split_from(s, sep, i + 1)
    } else {
        let rest = split_from(s, sep, i + 1);
        seq![seq![s[i]] + rest[0]] + rest.drop_first()
    }
}

/// The pieces of `s`, split at every occurrence of `sep`.
pub open spec fn split_spec(s: Seq<char>, sep: char) -> Seq<Seq<char>> {
    split_from(s, sep, 0)
}

/// How `split_from` relates to the position of the next separator: the
/// first piece runs up to it (or to the end when there is none), and the
/// remaining pieces are the split of what follows it.
pub proof fn lemma_split_step(s: Seq<char>, sep: char, i: int)
    requires
        0 <= i <= s.len(),
    ensures
        (match find_from(s, sep, i) {
            Some(j) => split_from(s, sep, i) == seq![s.subrange(i, j)] + split_from(
                s,
                sep,
                j + 1,
            ),
            None => split_from(s, sep, i) == seq![s.subrange(i, s.len() as int)],
        }),
    decreases s.len() - i,
{
    lemma_find_from(s, sep, i);
    if i >= s.len() {
        assert(s.subrange(i, s.len() as int) =~= Seq::<char>::empty());
        assert(split_from(s, sep, i) =~= seq![s.subrange(i, s.len() as int)]);
    } else if s[i] == sep {
        assert(s.subrange(i, i) =~= Seq::<char>::empty());
        assert(split_from(s, sep, i) =~= seq![s.subrange(i, i)] + split_from(s, sep, i + 1));
    } else {
        lemma_split_step(s, sep, i + 1);
        let rest = split_from(s, sep, i + 1);
        match find_from(s, sep, i + 1) {
            Some(j) => {
                assert(rest[0] == s.subrange(i + 1, j));
                assert(seq![s[i]] + s.subrange(i + 1, j) =~= s.subrange(i, j));
                assert(rest.drop_first() =~= split_from(s, sep, j + 1));
                assert(split_from(s, sep, i) =~= seq![s.subrange(i, j)] + split_from(
                    s,
                    sep,
                    j + 1,
                ));
            },
            None => {
                assert(rest[0] == s.subrange(i + 1, s.len() as int));
                assert(seq![s[i]] + s.subrange(i + 1, s.len() as int) =~= s.subrange(
                    i,
                    s.len() as int,
                ));
                assert(rest.drop_first() =~= Seq::<Seq<char>>::empty());
                assert(split_from(s, sep, i) =~= seq![s.subrange(i, s.len() as int)]);
            },
        }
    }
}

/// Index of the first occurrence of `c` in `s` at position `from` or later,
/// if there is one.
pub fn find_char_from(s: &str, c: char, from: usize) -> (r: Option<usize>)
    requires
        from as int <= s@.len(),
    ensures
        (match r {
            Some(j) => from <= j && find_from(s@, c, from as int) == Some(j as int),
            None => find_from(s@, c, from as int) is None,
        }),
{
    let n = s.unicode_len();
    let mut i: usize = from;
    while i < n
        invariant
            from <= i <= n,
            n == s@.len(),
            find_from(s@, c, from as int) == find_from(s@, c, i as int),
        decreases n - i,
    {
        if s.get_char(i) == c {
            return Some(i);
        }
        i = i + 1;
    }
    None
}

/// The pieces of `s`, split at every occurrence of `sep`, as owned strings.
pub fn split_char(s: &str, sep: char) -> (r: Vec<String>)
    ensures
        r@.map_values(|p: String| p@) == split_spec(s@, sep),
{
    let n = s.unicode_len();
    let mut parts: Vec<String> = Vec::new();
    let mut i: usize = 0;
    loop
        invariant
            0 <= i <= n,
            n == s@.len(),
            split_spec(s@, sep) == parts@.map_values(|p: String| p@) + split_from(
                s@,
                sep,
                i as int,
            ),
        decreases n - i,
    {
        proof {
            lemma_split_step(s@, sep, i as int);
            lemma_find_from(s@, sep, i as int);
        }
        let ghost done = parts@.map_values(|p: String| p@);
        match find_char_from(s, sep, i) {
            Some(j) => {
                let piece = s.substring_char(i, j).to_owned();
                proof {
                    assert(done.push(piece@) + split_from(s@, sep, j + 1) =~= done + (seq![
                        s@.subrange(i as int, j as int),
                    ] + split_from(s@, sep, j + 1)));
                }
                parts.push(piece);
                proof {
                    assert(parts@.map_values(|p: String| p@) =~= done.push(piece@));
                }
                i = j + 1;
            },
            None => {
                let piece = s.substring_char(i, n).to_owned();
                parts.push(piece);
                proof {
                    assert(parts@.map_values(|p: String| p@) =~= done.push(piece@));
                    assert(done.push(piece@) =~= done + seq![s@.subrange(i as int, n as int)]);
                }
                return parts;
            },
        }
    }
}

/// The maximal runs of non-whitespace characters of `s` from position `i`
/// on, in order.
pub open spec fn tokens_from(s: Seq<char>, i: int) -> Seq<Seq<char>>
    decreases s.len() - i,
{
    if !(0 <= i < s.len()) {
        seq![]
    } else if is_shell_ws(s[i]) {
        tokens_from(s, i + 1)
    } else {
        let rest = tokens_from(s, i + 1);
        if i + 1 < s.len() && !is_shell_ws(s[i + 1]) {
            seq![seq![s[i]] + rest[0]] + rest.drop_first()
        } else {
            seq![seq![s[i]]] + rest
        }
    }
}

/// The whitespace-separated tokens of `s`, in order.
pub open spec fn tokens_spec(s: Seq<char>) -> Seq<Seq<char>> {
    tokens_from(s, 0)
}

/// A maximal non-whitespace run `[i, j)` is the first token of the scan
/// from `i`, and the later tokens are those of the scan from `j`.
pub proof fn lemma_token_step(s: Seq<char>, i: int, j: int)
    requires
        0 <= i < j <= s.len(),
        forall|k: int| i <= k < j ==> !is_shell_ws(s[k]),
        j == s.len() || is_shell_ws(s[j]),
    ensures
        tokens_from(s, i) == seq![s.subrange(i, j)] + tokens_from(s, j),
    decreases j - i,
{
    if i + 1 == j {
        assert(seq![s[i]] =~= s.subrange(i, j));
        assert(tokens_from(s, i) =~= seq![s.subrange(i, j)] + tokens_from(s, j));
    } else {
        lemma_token_step(s, i + 1, j);
        let rest = tokens_from(s, i + 1);
        assert(rest[0] == s.subrange(i + 1, j));
        assert(seq![s[i]] + s.subrange(i + 1, j) =~= s.subrange(i, j));
        assert(rest.drop_first() =~= tokens_from(s, j));
        assert(tokens_from(s, i) =~= seq![s.subrange(i, j)] + tokens_from(s, j));
    }
}

/// A scan that starts on a whitespace character skips it.
pub proof fn lemma_token_ws_skip(s: Seq<char>, i: int)
    requires
        0 <= i < s.len(),
        is_shell_ws(s[i]),
    ensures
        tokens_from(s, i) == tokens_from(s, i + 1),
{
}

/// A sequence whose first character is not whitespace has at least one
/// token, and that token starts with that character.
pub proof fn lemma_tokens_nonempty(s: Seq<char>)
    requires
        s.len() > 0,
        !is_shell_ws(s[0]),
    ensures
        tokens_spec(s).len() >= 1,
{
}

/// The scan from `i` agrees with the scan from `j` when everything between
/// them is whitespace.
pub proof fn lemma_tokens_skip_run(s: Seq<char>, i: int, j: int)
    requires
        0 <= i <= j <= s.len(),
        forall|k: int| i <= k < j ==> is_shell_ws(s[k]),
    ensures
        tokens_from(s, i) == tokens_from(s, j),
    decreases j - i,
{
    if i < j {
        lemma_tokens_skip_run(s, i + 1, j);
    }
}

/// A scan over nothing but whitespace finds no token.
pub proof fn lemma_tokens_all_ws(s: Seq<char>, i: int)
    requires
        0 <= i,
        forall|k: int| i <= k < s.len() ==> is_shell_ws(s[k]),
    ensures
        tokens_from(s, i) == Seq::<Seq<char>>::empty(),
    decreases s.len() - i,
{
    if 0 <= i && i < s.len() {
        lemma_tokens_all_ws(s, i + 1);
    }
    assert(tokens_from(s, i) =~= Seq::<Seq<char>>::empty());
}

/// The scan from `i` sees only the characters from `i` on: it equals the
/// whole-sequence scan of the suffix.
pub proof fn lemma_tokens_suffix(s: Seq<char>, i: int)
    requires
        0 <= i <= s.len(),
    ensures
        tokens_from(s, i) == tokens_spec(s.subrange(i, s.len() as int)),
    decreases s.len() - i,
{
    let t = s.subrange(i, s.len() as int);
    if i >= s.len() {
        assert(tokens_from(s, i) =~= tokens_spec(t));
    } else {
        lemma_tokens_suffix(s, i + 1);
        let t1 = s.subrange(i + 1, s.len() as int);
        assert(t.drop_first() =~= t1);
        lemma_tokens_drop_first(t);
        assert(tokens_from(s, i) =~= tokens_spec(t));
    }
}

/// One step of the whole-sequence scan: the scan of `t` in terms of the
/// scan of `t` without its first character.
proof fn lemma_tokens_drop_first(t: Seq<char>)
    requires
        t.len() > 0,
    ensures
        is_shell_ws(t[0]) ==> tokens_spec(t) == tokens_spec(t.drop_first()),
        !is_shell_ws(t[0]) && t.len() > 1 && !is_shell_ws(t[1]) ==> tokens_spec(t) == seq![
            seq![t[0]] + tokens_spec(t.drop_first())[0],
        ] + tokens_spec(t.drop_first()).drop_first(),
        !is_shell_ws(t[0]) && !(t.len() > 1 && !is_shell_ws(t[1])) ==> tokens_spec(t) == seq![
            seq![t[0]],
        ] + tokens_spec(t.drop_first()),
{
    let d = t.drop_first();
    lemma_tokens_shift_one(t, 1);
    assert(tokens_from(t, 1) == tokens_spec(d));
}

/// The scan of `t` from position `i >= 1` equals the scan of `t` without
/// its first character, from `i - 1`.
proof fn lemma_tokens_shift_one(t: Seq<char>, i: int)
    requires
        1 <= i <= t.len(),
        t.len() > 0,
    ensures
        tokens_from(t, i) == tokens_from(t.drop_first(), i - 1),
    decreases t.len() - i,
{
    let d = t.drop_first();
    if i >= t.len() {
        assert(tokens_from(t, i) =~= tokens_from(d, i - 1));
    } else {
        lemma_tokens_shift_one(t, i + 1);
        assert(d[i - 1] == t[i]);
        if i + 1 < t.len() {
            assert(d[i] == t[i + 1]);
        }
        assert(tokens_from(t, i) =~= tokens_from(d, i - 1));
    }
}

/// Appending whitespace does not change the tokens.
pub proof fn lemma_tokens_ws_suffix(s: Seq<char>, w: Seq<char>, i: int)
    requires
        0 <= i,
        forall|k: int| 0 <= k < w.len() ==> is_shell_ws(w[k]),
    ensures
        tokens_from(s + w, i) == tokens_from(s, i),
    decreases s.len() + w.len() - i,
{
    let sw = s + w;
    if i >= sw.len() {
        assert(tokens_from(sw, i) =~= tokens_from(s, i));
    } else if i >= s.len() {
        assert(is_shell_ws(sw[i]));
        lemma_tokens_ws_suffix(s, w, i + 1);
        assert(tokens_from(sw, i) =~= tokens_from(s, i));
    } else {
        lemma_tokens_ws_suffix(s, w, i + 1);
        assert(sw[i] == s[i]);
        if i + 1 < s.len() {
            assert(sw[i + 1] == s[i + 1]);
        }
        assert(tokens_from(sw, i) =~= tokens_from(s, i));
    }
}

/// Trimming does not change the tokens.
pub proof fn lemma_tokens_trim(s: Seq<char>)
    ensures
        tokens_spec(trim_spec(s)) == tokens_spec(s),
{
    let a = ws_end(s, 0);
    let b = ws_start_rev(s, s.len() as int);
    lemma_ws_end(s, 0);
    lemma_ws_start_rev(s, s.len() as int);
    lemma_trim(s);
    let t = trim_spec(s);
    if t.len() == 0 {
        lemma_tokens_all_ws(s, 0);
        lemma_tokens_all_ws(t, 0);
        assert(tokens_spec(t) =~= tokens_spec(s));
    } else {
        assert(a < b);
        let w = s.subrange(b, s.len() as int);
        assert(t + w =~= s.subrange(a, s.len() as int));
        lemma_tokens_ws_suffix(t, w, 0);
        lemma_tokens_suffix(s, a);
        lemma_tokens_skip_run(s, 0, a);
        assert(tokens_spec(t) =~= tokens_spec(s));
    }
}

/// Every token of a scan is non-empty, has no whitespace in it, and is
/// drawn character for character from the scanned region.
pub proof fn lemma_tokens_wf(s: Seq<char>, i: int)
    requires
        0 <= i,
    ensures
        forall|m: int, x: int|
            0 <= m < tokens_from(s, i).len() && 0 <= x < tokens_from(s, i)[m].len()
                ==> !is_shell_ws(#[trigger] tokens_from(s, i)[m][x]) && (exists|p: int|
                i <= p < s.len() && s[p] == tokens_from(s, i)[m][x]),
        forall|m: int| 0 <= m < tokens_from(s, i).len() ==> #[trigger] tokens_from(s, i)[m].len()
            > 0,
    decreases s.len() - i,
{
    if !(0 <= i && i < s.len()) {
    } else {
        lemma_tokens_wf(s, i + 1);
        let rest = tokens_from(s, i + 1);
        if is_shell_ws(s[i]) {
            assert forall|m: int, x: int|
                0 <= m < tokens_from(s, i).len() && 0 <= x < tokens_from(s, i)[m].len() implies
                !is_shell_ws(tokens_from(s, i)[m][x]) && (exists|p: int|
                    i <= p < s.len() && s[p] == tokens_from(s, i)[m][x]) by {
                assert(tokens_from(s, i)[m] == rest[m]);
                let p = choose|p: int| i + 1 <= p < s.len() && s[p] == rest[m][x];
                assert(i <= p < s.len() && s[p] == tokens_from(s, i)[m][x]);
            }
        } else if i + 1 < s.len() && !is_shell_ws(s[i + 1]) {
            let toks = tokens_from(s, i);
            assert(toks == seq![seq![s[i]] + rest[0]] + rest.drop_first());
            assert forall|m: int, x: int|
                0 <= m < toks.len() && 0 <= x < toks[m].len() implies !is_shell_ws(toks[m][x])
                && (exists|p: int| i <= p < s.len() && s[p] == toks[m][x]) by {
                if m == 0 {
                    if x == 0 {
                        assert(toks[0][0] == s[i]);
                    } else {
                        assert(rest.len() > 0);
                        assert(toks[0][x] == rest[0][x - 1]);
                        let p = choose|p: int| i + 1 <= p < s.len() && s[p] == rest[0][x - 1];
                        assert(i <= p < s.len() && s[p] == toks[m][x]);
                    }
                } else {
                    assert(toks[m] == rest[m]);
                    let p = choose|p: int| i + 1 <= p < s.len() && s[p] == rest[m][x];
                    assert(i <= p < s.len() && s[p] == toks[m][x]);
                }
            }
            assert forall|m: int| 0 <= m < toks.len() implies #[trigger] toks[m].len() > 0 by {
                if m == 0 {
                } else {
                    assert(toks[m] == rest[m]);
                }
            }
        } else {
            let toks = tokens_from(s, i);
            assert(toks == seq![seq![s[i]]] + rest);
            assert forall|m: int, x: int|
                0 <= m < toks.len() && 0 <= x < toks[m].len() implies !is_shell_ws(toks[m][x])
                && (exists|p: int| i <= p < s.len() && s[p] == toks[m][x]) by {
                if m == 0 {
                    assert(toks[0][0] == s[i]);
                } else {
                    assert(toks[m] == rest[m - 1]);
                    let p = choose|p: int| i + 1 <= p < s.len() && s[p] == rest[m - 1][x];
                    assert(i <= p < s.len() && s[p] == toks[m][x]);
                }
            }
            assert forall|m: int| 0 <= m < toks.len() implies #[trigger] toks[m].len() > 0 by {
                if m == 0 {
                } else {
                    assert(toks[m] == rest[m - 1]);
                }
            }
        }
    }
}

/// Every piece of a split is free of the separator and is drawn character
/// for character from the split region.
pub proof fn lemma_split_wf(s: Seq<char>, sep: char, i: int)
    requires
        0 <= i,
    ensures
        forall|m: int, x: int|
            0 <= m < split_from(s, sep, i).len() && 0 <= x < split_from(s, sep, i)[m].len()
                ==> #[trigger] split_from(s, sep, i)[m][x] != sep && (exists|p: int|
                i <= p < s.len() && s[p] == split_from(s, sep, i)[m][x]),
    decreases s.len() - i,
{
    if i >= s.len() {
    } else {
        lemma_split_wf(s, sep, i + 1);
        let rest = split_from(s, sep, i + 1);
        let pieces = split_from(s, sep, i);
        if s[i] == sep {
            assert forall|m: int, x: int|
                0 <= m < pieces.len() && 0 <= x < pieces[m].len() implies pieces[m][x] != sep && (
            exists|p: int| i <= p < s.len() && s[p] == pieces[m][x]) by {
                assert(pieces[m] == rest[m - 1]);
                let p = choose|p: int| i + 1 <= p < s.len() && s[p] == rest[m - 1][x];
                assert(i <= p < s.len() && s[p] == pieces[m][x]);
            }
        } else {
            assert(rest.len() > 0);
            assert forall|m: int, x: int|
                0 <= m < pieces.len() && 0 <= x < pieces[m].len() implies pieces[m][x] != sep && (
            exists|p: int| i <= p < s.len() && s[p] == pieces[m][x]) by {
                if m == 0 {
                    if x == 0 {
                        assert(pieces[0][0] == s[i]);
                    } else {
                        assert(pieces[0][x] == rest[0][x - 1]);
                        let p = choose|p: int| i + 1 <= p < s.len() && s[p] == rest[0][x - 1];
                        assert(i <= p < s.len() && s[p] == pieces[m][x]);
                    }
                } else {
                    assert(pieces[m] == rest[m]);
                    let p = choose|p: int| i + 1 <= p < s.len() && s[p] == rest[m][x];
                    assert(i <= p < s.len() && s[p] == pieces[m][x]);
                }
            }
        }
    }
}

/// `find_from` returns `j` exactly when `j` holds `c` and nothing between
/// `i` and `j` does.
pub proof fn lemma_find_at(s: Seq<char>, c: char, i: int, j: int)
    requires
        0 <= i <= j < s.len(),
        forall|k: int| i <= k < j ==> s[k] != c,
        s[j] == c,
    ensures
        find_from(s, c, i) == Some(j),
{
    lemma_find_from(s, c, i);
    match find_from(s, c, i) {
        Some(j2) => {
            if j2 < j {
                assert(s[j2] != c);
            } else if j2 > j {
                assert(s[j] != c);
            }
        },
        None => {
            assert(s[j] != c);
        },
    }
}

/// `find_from` finds nothing when nothing from `i` on holds `c`.
pub proof fn lemma_find_none(s: Seq<char>, c: char, i: int)
    requires
        0 <= i,
        forall|k: int| i <= k < s.len() ==> s[k] != c,
    ensures
        find_from(s, c, i) is None,
{
    lemma_find_from(s, c, i);
    match find_from(s, c, i) {
        Some(j) => {
            assert(s[j] != c);
        },
        None => {},
    }
}

/// `has_char` distributes over concatenation.
pub proof fn lemma_has_char_concat(a: Seq<char>, b: Seq<char>, c: char)
    ensures
        has_char(a + b, c) == (has_char(a, c) || has_char(b, c)),
{
    if has_char(a, c) {
        let k = choose|k: int| 0 <= k < a.len() && a[k] == c;
        assert((a + b)[k] == c);
    }
    if has_char(b, c) {
        let k = choose|k: int| 0 <= k < b.len() && b[k] == c;
        assert((a + b)[a.len() + k] == c);
    }
    if has_char(a + b, c) {
        let k = choose|k: int| 0 <= k < (a + b).len() && (a + b)[k] == c;
        if k < a.len() {
            assert(a[k] == c);
        } else {
            assert(b[k - a.len()] == c);
        }
    }
}

/// The whitespace-separated tokens of `s`, as owned strings.
pub fn tokenize(s: &str) -> (r: Vec<String>)
    ensures
        r@.map_values(|t: String| t@) == tokens_spec(s@),
{
    let n = s.unicode_len();
    let mut toks: Vec<String> = Vec::new();
    let mut i: usize = 0;
    while i < n
        invariant
            0 <= i <= n,
            n == s@.len(),
            tokens_spec(s@) == toks@.map_values(|t: String| t@) + tokens_from(s@, i as int),
        decreases n - i,
    {
        if is_ws_char(s.get_char(i)) {
            proof {
                lemma_token_ws_skip(s@, i as int);
            }
            i = i + 1;
        } else {
            let start = i;
            let mut j = i + 1;
            while j < n && !is_ws_char(s.get_char(j))
                invariant
                    start < j <= n,
                    n == s@.len(),
                    forall|k: int| start <= k < j ==> !is_shell_ws(s@[k]),
                decreases n - j,
            {
                j = j + 1;
            }
            proof {
                lemma_token_step(s@, start as int, j as int);
            }
            let ghost done = toks@.map_values(|t: String| t@);
            let piece = s.substring_char(start, j).to_owned();
            proof {
                assert(done.push(piece@) + tokens_from(s@, j as int) =~= done + (seq![
                    s@.subrange(start as int, j as int),
                ] + tokens_from(s@, j as int)));
            }
            toks.push(piece);
            proof {
                assert(toks@.map_values(|t: String| t@) =~= done.push(piece@));
            }
            i = j;
        }
    }
    proof {
        assert(toks@.map_values(|t: String| t@) + tokens_from(s@, n as int) =~= toks@.map_values(
            |t: String| t@,
        ));
    }
    toks
}

} // verus!
