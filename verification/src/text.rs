//! Text utilities shared by the parsers and the path builders: decimal
//! rendering of integers, whitespace classification and tokenization, and
//! decimal parsing of byte values.

use vstd::prelude::*;

verus! {

/// The Unicode `White_Space` characters, the separators recognized when a
/// line is split into tokens.
pub open spec fn is_ws_char(c: char) -> bool {
    ||| c == ' '
    ||| c == '\t'
    ||| c == '\n'
    ||| c == '\u{b}'
    ||| c == '\u{c}'
    ||| c == '\r'
    ||| c == '\u{85}'
    ||| c == '\u{a0}'
    ||| c == '\u{1680}'
    ||| ('\u{2000}' as u32) <= (c as u32) && (c as u32) <= ('\u{200a}' as u32)
    ||| c == '\u{2028}'
    ||| c == '\u{2029}'
    ||| c == '\u{202f}'
    ||| c == '\u{205f}'
    ||| c == '\u{3000}'
}

/// Decide whether a character separates tokens.
pub fn is_whitespace_char(c: char) -> (r: bool)
    ensures
        r == is_ws_char(c),
{
    c == ' ' || c == '\t' || c == '\n' || c == '\u{b}' || c == '\u{c}' || c == '\r'
        || c == '\u{85}' || c == '\u{a0}' || c == '\u{1680}'
        || ((c as u32) >= ('\u{2000}' as u32) && (c as u32) <= ('\u{200a}' as u32))
        || c == '\u{2028}' || c == '\u{2029}' || c == '\u{202f}' || c == '\u{205f}'
        || c == '\u{3000}'
}

/// The decimal digit character for a value below ten.
pub open spec fn dec_digit(d: nat) -> char
    recommends
        d < 10,
{
    if d == 0 {
        '0'
    } else if d == 1 {
        '1'
    } else if d == 2 {
        '2'
    } else if d == 3 {
        '3'
    } else if d == 4 {
        '4'
    } else if d == 5 {
        '5'
    } else if d == 6 {
        '6'
    } else if d == 7 {
        '7'
    } else if d == 8 {
        '8'
    } else {
        '9'
    }
}

/// The decimal rendering of a natural number, without leading zeros
/// (a single zero renders as "0").
pub open spec fn dec_rep(n: nat) -> Seq<char>
    decreases n,
{
    if n < 10 {
        seq![dec_digit(n)]
    } else {
        dec_rep(n / 10).push(dec_digit(n % 10))
    }
}

fn digit_str(d: u64) -> (r: &'static str)
    requires
        d < 10,
    ensures
        r@.len() == 1,
        r@[0] == dec_digit(d as nat),
{
    proof {
        reveal_strlit("0");
        reveal_strlit("1");
        reveal_strlit("2");
        reveal_strlit("3");
        reveal_strlit("4");
        reveal_strlit("5");
        reveal_strlit("6");
        reveal_strlit("7");
        reveal_strlit("8");
        reveal_strlit("9");
    }
    match d {
        0 => "0",
        1 => "1",
        2 => "2",
        3 => "3",
        4 => "4",
        5 => "5",
        6 => "6",
        7 => "7",
        8 => "8",
        _ => "9",
    }
}

/// Render an unsigned integer in decimal.
pub fn u64_to_dec(n: u64) -> (s: String)
    ensures
        s@ == dec_rep(n as nat),
    decreases n,
{
    if n < 10 {
        let s = digit_str(n).to_owned();
        proof {
            assert(s@ =~= dec_rep(n as nat));
        }
        s
    } else {
        let mut s = u64_to_dec(n / 10);
        s.append(digit_str(n % 10));
        proof {
            assert(s@ =~= dec_rep(n as nat));
        }
        s
    }
}

/// The low `w` decimal digits of `n`, left-padded with zeros to exactly
/// `w` characters.
pub open spec fn dec_rep_pad(n: nat, w: nat) -> Seq<char>
    decreases w,
{
    if w == 0 {
        Seq::empty()
    } else {
        dec_rep_pad(n / 10, (w - 1) as nat).push(dec_digit(n % 10))
    }
}

/// Render the low `w` decimal digits of `n`, left-padded with zeros.
pub fn u32_to_dec_pad(n: u32, w: u32) -> (s: String)
    ensures
        s@ == dec_rep_pad(n as nat, w as nat),
    decreases w,
{
    if w == 0 {
        let s = String::new();
        proof {
            assert(s@ =~= dec_rep_pad(n as nat, 0));
        }
        s
    } else {
        let mut s = u32_to_dec_pad(n / 10, w - 1);
        s.append(digit_str((n % 10) as u64));
        proof {
            assert(s@ =~= dec_rep_pad(n as nat, w as nat));
        }
        s
    }
}

/// Whether `c` is a decimal digit.
pub open spec fn is_dec_digit_char(c: char) -> bool {
    ('0' as u32) <= (c as u32) && (c as u32) <= ('9' as u32)
}

/// The value of a decimal digit character.
pub open spec fn digit_char_val(c: char) -> nat
    recommends
        is_dec_digit_char(c),
{
    ((c as int) - ('0' as int)) as nat
}

/// Whether every character of `s` is a decimal digit.
pub open spec fn all_dec_digits(s: Seq<char>) -> bool {
    forall|i: int| 0 <= i < s.len() ==> is_dec_digit_char(s[i])
}

/// The value of a sequence of decimal digits, most significant first.
pub open spec fn digits_val(s: Seq<char>) -> nat
    decreases s.len(),
{
    if s.len() == 0 {
        0
    } else {
        digits_val(s.drop_last()) * 10 + digit_char_val(s.last())
    }
}

/// The digits of an unsigned decimal token: an optional leading plus sign
/// is dropped.
pub open spec fn u8_token_digits(s: Seq<char>) -> Seq<char> {
    if s.len() > 0 && s[0] == '+' {
        s.drop_first()
    } else {
        s
    }
}

/// Whether `s` is a decimal token for a byte value, in the form the standard
/// unsigned parser accepts: an optional plus sign, then one or more digits,
/// with a value of at most 255.
pub open spec fn is_u8_token(s: Seq<char>) -> bool {
    let d = u8_token_digits(s);
    d.len() > 0 && all_dec_digits(d) && digits_val(d) <= 255
}

/// The byte value of a decimal token.
pub open spec fn u8_token_val(s: Seq<char>) -> nat {
    digits_val(u8_token_digits(s))
}

proof fn lemma_digits_val_prefix_le(s: Seq<char>, m: int)
    requires
        0 <= m <= s.len(),
    ensures
        digits_val(s.subrange(0, m)) <= digits_val(s),
    decreases s.len() - m,
{
    if m == s.len() {
        assert(s.subrange(0, m) =~= s);
    } else {
        let t = s.drop_last();
        assert(t.subrange(0, m) =~= s.subrange(0, m));
        lemma_digits_val_prefix_le(t, m);
    }
}

/// Parse a byte value from a decimal token, accepting exactly the strings
/// the standard unsigned parser accepts for a byte.
pub fn parse_u8(s: &str) -> (r: Option<u8>)
    ensures
        (r is Some) <==> is_u8_token(s@),
        r matches Some(v) ==> v == u8_token_val(s@),
{
    let len = s.unicode_len();
    let mut i: usize = 0;
    if len > 0 && s.get_char(0) == '+' {
        i = 1;
    }
    let start = i;
    proof {
        assert(u8_token_digits(s@) =~= s@.skip(start as int));
    }
    if i == len {
        return None;
    }
    let mut acc: u32 = 0;
    while i < len
        invariant
            start <= i <= len,
            len == s@.len(),
            u8_token_digits(s@) =~= s@.skip(start as int),
            forall|j: int| start <= j < i ==> is_dec_digit_char(s@[j]),
            acc == digits_val(s@.subrange(start as int, i as int)),
            acc <= 255,
        decreases len - i,
    {
        let c = s.get_char(i);
        let cu = c as u32;
        if cu < 48 || cu > 57 {
            proof {
                assert(u8_token_digits(s@)[i - start] == s@[i as int]);
            }
            return None;
        }
        let dv: u32 = cu - 48;
        acc = acc * 10 + dv;
        proof {
            let pre = s@.subrange(start as int, i as int);
            let cur = s@.subrange(start as int, i + 1);
            assert(cur.drop_last() =~= pre);
            assert(cur.last() == s@[i as int]);
        }
        if acc > 255 {
            proof {
                let d = u8_token_digits(s@);
                let cur = s@.subrange(start as int, i + 1);
                if all_dec_digits(d) {
                    assert(cur =~= d.subrange(0, i + 1 - start));
                    lemma_digits_val_prefix_le(d, i + 1 - start);
                }
            }
            return None;
        }
        i = i + 1;
    }
    proof {
        let d = u8_token_digits(s@);
        assert(d =~= s@.subrange(start as int, len as int));
        assert forall|j: int| 0 <= j < d.len() implies is_dec_digit_char(d[j]) by {
            assert(d[j] == s@[start + j]);
        }
    }
    Some(acc as u8)
}

/// Whether two string slices hold the same characters.
pub fn str_eq(a: &str, b: &str) -> (r: bool)
    ensures
        r == (a@ == b@),
{
    let alen = a.unicode_len();
    let blen = b.unicode_len();
    if alen != blen {
        return false;
    }
    let mut i: usize = 0;
    while i < alen
        invariant
            i <= alen,
            alen == a@.len(),
            alen == b@.len(),
            forall|j: int| 0 <= j < i ==> a@[j] == b@[j],
        decreases alen - i,
    {
        if a.get_char(i) != b.get_char(i) {
            return false;
        }
        i = i + 1;
    }
    proof {
        assert(a@ =~= b@);
    }
    true
}

/// Whether `s` begins with the characters of `prefix`.
pub open spec fn has_prefix(s: Seq<char>, prefix: Seq<char>) -> bool {
    prefix.len() <= s.len() && s.subrange(0, prefix.len() as int) == prefix
}

/// Whether the string slice `s` starts with `prefix`.
pub fn str_starts_with(s: &str, prefix: &str) -> (r: bool)
    ensures
        r == has_prefix(s@, prefix@),
{
    let slen = s.unicode_len();
    let plen = prefix.unicode_len();
    if plen > slen {
        proof {
            assert(!has_prefix(s@, prefix@));
        }
        return false;
    }
    let mut i: usize = 0;
    while i < plen
        invariant
            i <= plen,
            plen <= slen,
            slen == s@.len(),
            plen == prefix@.len(),
            forall|j: int| 0 <= j < i ==> s@[j] == prefix@[j],
        decreases plen - i,
    {
        if s.get_char(i) != prefix.get_char(i) {
            proof {
                assert(s@.subrange(0, plen as int)[i as int] == s@[i as int]);
            }
            return false;
        }
        i = i + 1;
    }
    proof {
        assert(s@.subrange(0, plen as int) =~= prefix@);
    }
    true
}

/// The characters of `s` from position `from` to the end, as an owned string.
pub fn str_suffix(s: &str, from: usize) -> (r: String)
    requires
        from <= s@.len(),
    ensures
        r@ == s@.skip(from as int),
{
    let len = s.unicode_len();
    let r = s.substring_char(from, len).to_owned();
    proof {
        assert(r@ =~= s@.skip(from as int));
    }
    r
}

/// The length of the leading run of non-whitespace characters.
pub open spec fn non_ws_run(s: Seq<char>) -> nat
    decreases s.len(),
{
    if s.len() == 0 || is_ws_char(s[0]) {
        0
    } else {
        1 + non_ws_run(s.drop_first())
    }
}

/// The whitespace-separated tokens of `s`, in order: what splitting on
/// whitespace yields, each token a maximal run of non-whitespace characters.
pub open spec fn split_ws(s: Seq<char>) -> Seq<Seq<char>>
    decreases s.len()
        via split_ws_decreases
{
    if s.len() == 0 {
        Seq::empty()
    } else if is_ws_char(s[0]) {
        split_ws(s.drop_first())
    } else {
        seq![s.take(non_ws_run(s) as int)] + split_ws(s.skip(non_ws_run(s) as int))
    }
}

proof fn lemma_non_ws_run_le(s: Seq<char>)
    ensures
        non_ws_run(s) <= s.len(),
    decreases s.len(),
{
    if s.len() > 0 && !is_ws_char(s[0]) {
        lemma_non_ws_run_le(s.drop_first());
    }
}

#[via_fn]
proof fn split_ws_decreases(s: Seq<char>) {
    if s.len() > 0 && !is_ws_char(s[0]) {
        lemma_non_ws_run_le(s);
        assert(non_ws_run(s) >= 1);
    }
}

proof fn lemma_non_ws_run_eq(s: Seq<char>, m: int)
    requires
        0 <= m <= s.len(),
        forall|i: int| 0 <= i < m ==> !is_ws_char(s[i]),
        m < s.len() ==> is_ws_char(s[m]),
    ensures
        non_ws_run(s) == m,
    decreases s.len(),
{
    if s.len() == 0 || is_ws_char(s[0]) {
        assert(m == 0);
    } else {
        let t = s.drop_first();
        assert forall|i: int| 0 <= i < m - 1 implies !is_ws_char(t[i]) by {
            assert(t[i] == s[i + 1]);
        }
        assert(m - 1 < t.len() ==> is_ws_char(t[m - 1])) by {
            if m - 1 < t.len() {
                assert(t[m - 1] == s[m]);
            }
        }
        lemma_non_ws_run_eq(t, m - 1);
    }
}

proof fn lemma_split_ws_skip(s: Seq<char>, i: int)
    requires
        0 <= i < s.len(),
        is_ws_char(s[i]),
    ensures
        split_ws(s.skip(i)) == split_ws(s.skip(i + 1)),
{
    let t = s.skip(i);
    assert(t[0] == s[i]);
    assert(t.drop_first() =~= s.skip(i + 1));
}

proof fn lemma_split_ws_token(s: Seq<char>, i: int, j: int)
    requires
        0 <= i < j <= s.len(),
        forall|k: int| i <= k < j ==> !is_ws_char(s[k]),
        j < s.len() ==> is_ws_char(s[j]),
    ensures
        split_ws(s.skip(i)) == seq![s.subrange(i, j)] + split_ws(s.skip(j)),
{
    let t = s.skip(i);
    assert forall|k: int| 0 <= k < j - i implies !is_ws_char(t[k]) by {
        assert(t[k] == s[i + k]);
    }
    assert(j - i < t.len() ==> is_ws_char(t[j - i])) by {
        if j - i < t.len() {
            assert(t[j - i] == s[j]);
        }
    }
    lemma_non_ws_run_eq(t, j - i);
    assert(!is_ws_char(t[0]));
    assert(t.take(j - i) =~= s.subrange(i, j));
    assert(t.skip(j - i) =~= s.skip(j));
}

/// Split a string into its whitespace-separated tokens.
pub fn split_whitespace_tokens(s: &str) -> (tokens: Vec<String>)
    ensures
        tokens.deep_view() == split_ws(s@),
{
    let len = s.unicode_len();
    let mut tokens: Vec<String> = Vec::new();
    proof {
        assert(s@.skip(0) =~= s@);
        assert(tokens.deep_view() =~~= Seq::<Seq<char>>::empty());
        assert(tokens.deep_view() + split_ws(s@) =~~= split_ws(s@));
    }
    let mut i: usize = 0;
    while i < len
        invariant
            i <= len,
            len == s@.len(),
            split_ws(s@) == tokens.deep_view() + split_ws(s@.skip(i as int)),
        decreases len - i,
    {
        if is_whitespace_char(s.get_char(i)) {
            proof {
                lemma_split_ws_skip(s@, i as int);
            }
            i = i + 1;
        } else {
            let start = i;
            i = i + 1;
            while i < len && !is_whitespace_char(s.get_char(i))
                invariant
                    start < i <= len,
                    len == s@.len(),
                    forall|k: int| start <= k < i ==> !is_ws_char(s@[k]),
                decreases len - i,
            {
                i = i + 1;
            }
            let ghost old_dv = tokens.deep_view();
            let tok = s.substring_char(start, i).to_owned();
            tokens.push(tok);
            proof {
                lemma_split_ws_token(s@, start as int, i as int);
                assert(tokens.deep_view() =~~= old_dv + seq![s@.subrange(start as int, i as int)]);
                assert(tokens.deep_view() + split_ws(s@.skip(i as int)) =~~= split_ws(s@));
            }
        }
    }
    proof {
        assert(s@.skip(len as int) =~= Seq::<char>::empty());
        assert(tokens.deep_view() =~~= split_ws(s@));
    }
    tokens
}

/// Whether a data-file line is a comment: its first character is '#'.
pub open spec fn is_comment_line(line: Seq<char>) -> bool {
    line.len() > 0 && line[0] == '#'
}

/// The non-comment lines of a data file, in order.
pub open spec fn data_rows(lines: Seq<Seq<char>>) -> Seq<Seq<char>>
    decreases lines.len(),
{
    if lines.len() == 0 {
        Seq::empty()
    } else if is_comment_line(lines[0]) {
        data_rows(lines.drop_first())
    } else {
        seq![lines[0]] + data_rows(lines.drop_first())
    }
}

proof fn lemma_data_rows_skip_comment(lines: Seq<Seq<char>>, i: int)
    requires
        0 <= i < lines.len(),
        is_comment_line(lines[i]),
    ensures
        data_rows(lines.skip(i)) == data_rows(lines.skip(i + 1)),
{
    let t = lines.skip(i);
    assert(t[0] == lines[i]);
    assert(t.drop_first() =~= lines.skip(i + 1));
}

proof fn lemma_data_rows_cons(lines: Seq<Seq<char>>, i: int)
    requires
        0 <= i < lines.len(),
        !is_comment_line(lines[i]),
    ensures
        data_rows(lines.skip(i)) == seq![lines[i]] + data_rows(lines.skip(i + 1)),
{
    let t = lines.skip(i);
    assert(t[0] == lines[i]);
    assert(t.drop_first() =~= lines.skip(i + 1));
}

proof fn lemma_data_rows_push(s: Seq<Seq<char>>, x: Seq<char>)
    ensures
        data_rows(s.push(x)) == data_rows(s) + (if is_comment_line(x) {
            Seq::<Seq<char>>::empty()
        } else {
            seq![x]
        }),
    decreases s.len(),
{
    let tail = if is_comment_line(x) {
        Seq::<Seq<char>>::empty()
    } else {
        seq![x]
    };
    if s.len() == 0 {
        assert(s.push(x).len() == 1);
        assert(s.push(x)[0] == x);
        assert(s.push(x).drop_first() =~= Seq::<Seq<char>>::empty());
        assert(data_rows(s) =~= Seq::<Seq<char>>::empty());
        if is_comment_line(x) {
            assert(data_rows(s.push(x)) == data_rows(s.push(x).drop_first()));
            assert(data_rows(s.push(x)) =~= data_rows(s) + tail);
        } else {
            assert(data_rows(s.push(x)) == seq![x] + data_rows(s.push(x).drop_first()));
            assert(data_rows(s.push(x)) =~= data_rows(s) + tail);
        }
    } else {
        assert(s.push(x)[0] == s[0]);
        assert(s.push(x).drop_first() =~= s.drop_first().push(x));
        lemma_data_rows_push(s.drop_first(), x);
        if is_comment_line(s[0]) {
            assert(data_rows(s.push(x)) == data_rows(s.drop_first().push(x)));
            assert(data_rows(s) == data_rows(s.drop_first()));
            assert(data_rows(s.push(x)) =~= data_rows(s) + tail);
        } else {
            assert(data_rows(s.push(x)) == seq![s[0]] + data_rows(s.drop_first().push(x)));
            assert(data_rows(s) == seq![s[0]] + data_rows(s.drop_first()));
            assert(data_rows(s.push(x)) =~= data_rows(s) + tail);
        }
    }
}

proof fn lemma_data_rows_split(s: Seq<Seq<char>>, i: int)
    requires
        0 <= i <= s.len(),
    ensures
        data_rows(s) == data_rows(s.take(i)) + data_rows(s.skip(i)),
    decreases i,
{
    if i == 0 {
        assert(s.take(0) =~= Seq::<Seq<char>>::empty());
        assert(s.skip(0) =~= s);
        assert(data_rows(s.take(0)) + data_rows(s) =~= data_rows(s));
    } else {
        let t = s.take(i);
        assert(t[0] == s[0]);
        assert(t.drop_first() =~= s.drop_first().take(i - 1));
        assert(s.skip(i) =~= s.drop_first().skip(i - 1));
        lemma_data_rows_split(s.drop_first(), i - 1);
        if is_comment_line(s[0]) {
            assert(data_rows(s.take(i)) + data_rows(s.skip(i)) =~= data_rows(s));
        } else {
            assert(data_rows(s.take(i)) + data_rows(s.skip(i)) =~= data_rows(s));
        }
    }
}

/// Tokenize the non-comment lines of a data file, requiring at least
/// `min_tokens` whitespace-separated fields on each. Returns the token rows
/// in line order, or a parse failure naming no row when some non-comment
/// line is too short.
pub fn token_rows(lines: &Vec<String>, min_tokens: usize) -> (r: Result<
    Vec<Vec<String>>,
    crate::FractalError,
>)
    ensures
        (r is Ok) <==> (forall|i: int|
            0 <= i < data_rows(lines.deep_view()).len() ==> split_ws(
                #[trigger] data_rows(lines.deep_view())[i],
            ).len() >= min_tokens),
        r matches Ok(rows) ==> {
            &&& rows.deep_view().len() == data_rows(lines.deep_view()).len()
            &&& forall|i: int|
                0 <= i < rows.deep_view().len() ==> #[trigger] rows.deep_view()[i] == split_ws(
                    data_rows(lines.deep_view())[i],
                )
        },
        r matches Err(e) ==> e == crate::FractalError::Parse,
{
    let ghost ldv = lines.deep_view();
    let mut rows: Vec<Vec<String>> = Vec::new();
    let mut li: usize = 0;
    while li < lines.len()
        invariant
            li <= lines.len(),
            ldv == lines.deep_view(),
            rows.deep_view().len() == data_rows(ldv.take(li as int)).len(),
            forall|j: int|
                0 <= j < rows.deep_view().len() ==> #[trigger] rows.deep_view()[j] == split_ws(
                    data_rows(ldv.take(li as int))[j],
                ) && rows.deep_view()[j].len() >= min_tokens,
        decreases lines.len() - li,
    {
        proof {
            lemma_data_rows_split(ldv, li as int);
        }
        let ghost processed = data_rows(ldv.take(li as int));
        let line = &lines[li];
        let is_comment = line.as_str().unicode_len() > 0 && line.as_str().get_char(0) == '#';
        proof {
            assert(ldv[li as int] == line@);
            assert(ldv.take(li + 1) =~= ldv.take(li as int).push(ldv[li as int]));
            lemma_data_rows_push(ldv.take(li as int), ldv[li as int]);
        }
        if is_comment {
            proof {
                assert(data_rows(ldv.take(li + 1)) =~~= processed);
            }
        } else {
            proof {
                lemma_data_rows_cons(ldv, li as int);
                assert(data_rows(ldv)[processed.len() as int] == ldv[li as int]);
            }
            let toks = split_whitespace_tokens(line.as_str());
            if toks.len() < min_tokens {
                proof {
                    assert(split_ws(data_rows(ldv)[processed.len() as int]).len()
                        < min_tokens);
                }
                return Err(crate::FractalError::Parse);
            }
            let ghost old_dv = rows.deep_view();
            rows.push(toks);
            proof {
                assert(data_rows(ldv.take(li + 1)) =~~= processed + seq![ldv[li as int]]);
                assert(rows.deep_view() =~~= old_dv + seq![split_ws(ldv[li as int])]);
            }
        }
        li = li + 1;
    }
    proof {
        assert(ldv.take(li as int) =~= ldv);
        assert forall|i: int|
            0 <= i < data_rows(ldv).len() implies split_ws(
            #[trigger] data_rows(ldv)[i],
        ).len() >= min_tokens by {
            assert(rows.deep_view()[i] == split_ws(data_rows(ldv.take(li as int))[i]));
        }
    }
    Ok(rows)
}

} // verus!
