//! Connectivity diagnostics: reading what `powershell` and `ping` print, and
//! scoring a Telegram connectivity benchmark from the probes' results.
use vstd::prelude::*;
use crate::text::{
    all_digits, chars_of, contains_chars, contains_text, decimal, first_occurrence, index_of,
    is_digit, is_first_occurrence, lemma_decimal, leading_digits, leading_u64, lossy_text,
    occurs_at, string_from_chars, u64_of_digits, utf8_lossy,
};

verus! {

/// The pieces of `s` between its newlines, in order: one more than there
/// are newlines.
pub open spec fn newline_pieces(s: Seq<char>) -> Seq<Seq<char>>
    decreases s.len(),
{
    if s.len() == 0 {
        seq![Seq::<char>::empty()]
    } else {
        let p = newline_pieces(s.drop_last());
        if s.last() == '\n' {
            p.push(Seq::<char>::empty())
        } else {
            p.update(p.len() - 1, p.last().push(s.last()))
        }
    }
}

/// A piece that ended at a newline, without the carriage return before it.
pub open spec fn without_cr(p: Seq<char>) -> Seq<char> {
    if p.len() > 0 && p.last() == '\r' { p.drop_last() } else { p }
}

/// The lines of a text as `str::lines` gives them: split at `\n` or `\r\n`;
/// a last line ending is optional; a lone `\r` stays in its line.
pub open spec fn text_lines(s: Seq<char>) -> Seq<Seq<char>> {
    let p = newline_pieces(s);
    let k = p.len() - 1;
    Seq::new(k as nat, |i: int| without_cr(p[i])) + if p[k].len() > 0 {
        seq![p[k]]
    } else {
        Seq::<Seq<char>>::empty()
    }
}

proof fn lemma_newline_pieces_len(s: Seq<char>)
    ensures
        newline_pieces(s).len() >= 1,
    decreases s.len(),
{
    if s.len() > 0 {
        lemma_newline_pieces_len(s.drop_last());
    }
}

/// The views of a vector of character vectors.
pub open spec fn views(v: Seq<Vec<char>>) -> Seq<Seq<char>> {
    v.map_values(|x: Vec<char>| x@)
}

/// Splits a text into its lines, as `str::lines` does.
pub fn split_lines(s: &[char]) -> (lines: Vec<Vec<char>>)
    ensures
        views(lines@) == text_lines(s@),
{
    let mut done: Vec<Vec<char>> = Vec::new();
    let mut cur: Vec<char> = Vec::new();
    let mut i: usize = 0;
    assert(s@.take(0) =~= Seq::<char>::empty());
    assert(views(done@).push(cur@) =~= newline_pieces(s@.take(0)));
    while i < s.len()
        invariant
            i <= s@.len(),
            views(done@).push(cur@) == newline_pieces(s@.take(i as int)),
        decreases s@.len() - i,
    {
        let c = s[i];
        proof {
            let t = s@.take(i + 1);
            assert(t.drop_last() =~= s@.take(i as int));
            assert(t.last() == c);
        }
        if c == '\n' {
            done.push(cur);
            cur = Vec::new();
            proof {
                assert(views(done@).push(cur@) =~= newline_pieces(s@.take(i as int)).push(
                    Seq::<char>::empty(),
                ));
            }
        } else {
            cur.push(c);
            proof {
                let p = newline_pieces(s@.take(i as int));
                assert(views(done@).push(cur@) =~= p.update(p.len() - 1, p.last().push(c)));
            }
        }
        i = i + 1;
    }
    assert(s@.take(s@.len() as int) =~= s@);
    let ghost pieces = newline_pieces(s@);
    let ghost k = pieces.len() - 1;
    let mut lines: Vec<Vec<char>> = Vec::new();
    let mut j: usize = 0;
    while j < done.len()
        invariant
            j <= done@.len(),
            views(done@).push(cur@) == pieces,
            k == done@.len(),
            views(lines@) == Seq::new(j as nat, |m: int| without_cr(pieces[m])),
        decreases done@.len() - j,
    {
        let piece = &done[j];
        let n = piece.len();
        let mut line: Vec<char> = Vec::new();
        let end: usize = if n > 0 && piece[n - 1] == '\r' { n - 1 } else { n };
        let mut m: usize = 0;
        while m < end
            invariant
                m <= end <= n,
                n == piece@.len(),
                line@ == piece@.take(m as int),
            decreases end - m,
        {
            line.push(piece[m]);
            m = m + 1;
            assert(line@ =~= piece@.take(m as int));
        }
        proof {
            assert(pieces[j as int] == piece@);
            assert(line@ =~= without_cr(piece@));
        }
        let ghost before = lines@;
        let ghost line_view = line@;
        lines.push(line);
        assert(views(lines@) =~= views(before).push(line_view));
        j = j + 1;
        assert(views(lines@) =~= Seq::new(j as nat, |m: int| without_cr(pieces[m])));
    }
    if cur.len() > 0 {
        let ghost before = lines@;
        let ghost cur_view = cur@;
        lines.push(cur);
        assert(views(lines@) =~= views(before).push(cur_view));
    }
    assert(views(lines@) =~= text_lines(s@));
    lines
}


/// What `str::to_lowercase` makes of a text: each character replaced by its
/// lower-case mapping in Unicode.
pub uninterp spec fn lowercase_text(s: Seq<char>) -> Seq<char>;

/// Every character of the text is ASCII.
pub open spec fn is_ascii_text(s: Seq<char>) -> bool {
    forall|i: int| 0 <= i < s.len() ==> (s[i] as u32) < 128
}

/// The ASCII lower-case of a character: `A` to `Z` become `a` to `z`, every
/// other character stays.
pub open spec fn ascii_lower(c: char) -> char {
    if 65 <= (c as u32) <= 90 {
        ((c as u32) + 32) as char
    } else {
        c
    }
}

/// The lower case of a text: on ASCII text, its ASCII lower case; on other
/// text, its Unicode lower-case mapping.
pub open spec fn lowered(s: Seq<char>) -> Seq<char> {
    if is_ascii_text(s) {
        s.map_values(|c: char| ascii_lower(c))
    } else {
        lowercase_text(s)
    }
}

/// `str::to_lowercase`. Claimed: the result is `lowercase_text` of the text,
/// and on ASCII text that is the text with `A` to `Z` lowered and every other
/// character kept, as the Unicode mapping has it for ASCII letters.
#[verifier::external_body]
fn to_lowercase(s: &str) -> (r: String)
    ensures
        r@ == lowercase_text(s@),
        is_ascii_text(s@) ==> r@ == s@.map_values(|c: char| ascii_lower(c)),
{
    s.to_lowercase()
}

/// The line speaks of milliseconds, in English or Russian.
pub open spec fn mentions_ms(lower: Seq<char>) -> bool {
    contains_text(lower, "ms"@) || contains_text(lower, "мс"@)
}

/// The number right after the first `eq` marker in a line, or, where the
/// line has none, after the first `lt` marker; both markers are `width`
/// characters long.
pub open spec fn time_after(lower: Seq<char>, eq: Seq<char>, lt: Seq<char>, width: int) -> Option<u64> {
    let at = match first_occurrence(lower, eq) {
        Some(i) => Some(i),
        None => first_occurrence(lower, lt),
    };
    match at {
        Some(i) => u64_of_digits(leading_digits(lower.skip(i + width))),
        None => None,
    }
}

/// The round-trip time that one lower-cased line of `ping` output reports:
/// the number after `time=` (or, failing that, `time<`); else the number
/// after `время=` (or `время<`), as a Russian reply writes it; else, on a
/// line that mentions milliseconds, the number after the first `=` when it
/// is below 10000.
pub open spec fn line_ping_time(lower: Seq<char>) -> Option<u64> {
    let english = time_after(lower, "time="@, "time<"@, 5);
    let russian = time_after(lower, "время="@, "время<"@, 6);
    if english is Some {
        english
    } else if russian is Some {
        russian
    } else {
        match first_occurrence(lower, "="@) {
            Some(j) => if mentions_ms(lower) {
                match u64_of_digits(leading_digits(lower.skip(j + 1))) {
                    Some(ms) => if ms < 10000 {
                        Some(ms)
                    } else {
                        None
                    },
                    None => None,
                }
            } else {
                None
            },
            None => None,
        }
    }
}

proof fn lemma_leading_digits_of(d: Seq<char>, post: Seq<char>)
    requires
        all_digits(d),
        post.len() == 0 || !is_digit(post[0]),
    ensures
        leading_digits(d + post) == d,
    decreases d.len(),
{
    let x = d + post;
    if d.len() == 0 {
        assert(x =~= post);
        assert(d =~= Seq::<char>::empty());
    } else {
        let d2 = d.drop_first();
        assert(x[0] == d[0]);
        assert(is_digit(d[0]));
        assert(x.drop_first() =~= d2 + post);
        assert forall|i: int| 0 <= i < d2.len() implies is_digit(#[trigger] d2[i]) by {
            assert(d2[i] == d[i + 1]);
        }
        lemma_leading_digits_of(d2, post);
        assert(seq![d[0]] + d2 =~= d);
    }
}

proof fn lemma_first_at(h: Seq<char>, p: Seq<char>, i: int)
    requires
        occurs_at(h, p, i),
        forall|k: int| 0 <= k < i ==> !occurs_at(h, p, k),
    ensures
        first_occurrence(h, p) == Some(i),
{
    assert(is_first_occurrence(h, p, i));
    let j = choose|j: int| is_first_occurrence(h, p, j);
    assert(is_first_occurrence(h, p, j));
    if j < i {
        assert(!occurs_at(h, p, j));
    }
    if i < j {
        assert(!occurs_at(h, p, i));
    }
}

/// A number written in decimal after a marker reads back as that number.
proof fn lemma_number_after(pre: Seq<char>, marker: Seq<char>, n: u64, post: Seq<char>)
    requires
        post.len() == 0 || !is_digit(post[0]),
    ensures
        u64_of_digits(leading_digits((pre + marker + decimal(n as nat) + post).skip(pre.len() + marker.len() as int)))
            == Some(n),
        occurs_at(pre + marker + decimal(n as nat) + post, marker, pre.len() as int),
{
    let line = pre + marker + decimal(n as nat) + post;
    assert(line.skip(pre.len() + marker.len() as int) =~= decimal(n as nat) + post);
    assert(line.subrange(pre.len() as int, pre.len() + marker.len() as int) =~= marker);
    lemma_decimal(n as nat);
    lemma_leading_digits_of(decimal(n as nat), post);
}

/// A line reports the number written right after its first `time=`, when
/// the number is not followed by another digit.
pub proof fn law_ping_reads_time(pre: Seq<char>, n: u64, post: Seq<char>)
    requires
        forall|k: int|
            0 <= k < pre.len() ==> !occurs_at(pre + "time="@ + decimal(n as nat) + post, "time="@, k),
        post.len() == 0 || !is_digit(post[0]),
    ensures
        line_ping_time(pre + "time="@ + decimal(n as nat) + post) == Some(n),
{
    reveal_strlit("time=");
    lemma_number_after(pre, "time="@, n, post);
    lemma_first_at(pre + "time="@ + decimal(n as nat) + post, "time="@, pre.len() as int);
}

/// A Russian reply line, which has no `time=` or `time<`, reports the
/// number written right after its first `время=`, whatever other `=` come
/// before it (such as the byte count in `байт=32`).
pub proof fn law_ping_reads_russian_time(pre: Seq<char>, n: u64, post: Seq<char>)
    requires
        forall|k: int|
            !occurs_at(pre + "время="@ + decimal(n as nat) + post, "time="@, k) && !occurs_at(
                pre + "время="@ + decimal(n as nat) + post,
                "time<"@,
                k,
            ),
        forall|k: int|
            0 <= k < pre.len() ==> !occurs_at(pre + "время="@ + decimal(n as nat) + post, "время="@, k),
        post.len() == 0 || !is_digit(post[0]),
    ensures
        line_ping_time(pre + "время="@ + decimal(n as nat) + post) == Some(n),
{
    reveal_strlit("время=");
    let line = pre + "время="@ + decimal(n as nat) + post;
    lemma_number_after(pre, "время="@, n, post);
    lemma_first_at(line, "время="@, pre.len() as int);
    assert(first_occurrence(line, "time="@) is None);
    assert(first_occurrence(line, "time<"@) is None);
}

/// A line in another language, with neither `time` nor `время` marker but
/// with `ms` or `мс` in it, reports the number right after its first `=`
/// when that number is below 10000, and nothing when it is larger.
pub proof fn law_ping_reads_other_locales(pre: Seq<char>, n: u64, post: Seq<char>)
    requires
        forall|k: int|
            !occurs_at(pre + "="@ + decimal(n as nat) + post, "time="@, k) && !occurs_at(
                pre + "="@ + decimal(n as nat) + post,
                "time<"@,
                k,
            ) && !occurs_at(pre + "="@ + decimal(n as nat) + post, "время="@, k) && !occurs_at(
                pre + "="@ + decimal(n as nat) + post,
                "время<"@,
                k,
            ),
        forall|k: int| 0 <= k < pre.len() ==> pre[k] != '=',
        contains_text(pre + "="@ + decimal(n as nat) + post, "ms"@) || contains_text(
            pre + "="@ + decimal(n as nat) + post,
            "мс"@,
        ),
        post.len() == 0 || !is_digit(post[0]),
    ensures
        line_ping_time(pre + "="@ + decimal(n as nat) + post) == if n < 10000 {
            Some(n)
        } else {
            None
        },
{
    reveal_strlit("=");
    let line = pre + "="@ + decimal(n as nat) + post;
    lemma_number_after(pre, "="@, n, post);
    assert forall|k: int| 0 <= k < pre.len() implies !occurs_at(line, "="@, k) by {
        if occurs_at(line, "="@, k) {
            assert(line.subrange(k, k + 1)[0] == line[k]);
            assert(line[k] == pre[k]);
        }
    }
    lemma_first_at(line, "="@, pre.len() as int);
    assert(first_occurrence(line, "time="@) is None);
    assert(first_occurrence(line, "time<"@) is None);
    assert(first_occurrence(line, "время="@) is None);
    assert(first_occurrence(line, "время<"@) is None);
}

/// The time that the first line reporting one reports.
pub open spec fn ping_time_of_lines(lines: Seq<Seq<char>>) -> Option<u64>
    decreases lines.len(),
{
    if lines.len() == 0 {
        None
    } else {
        match line_ping_time(lowered(lines[0])) {
            Some(t) => Some(t),
            None => ping_time_of_lines(lines.drop_first()),
        }
    }
}

/// The number right after the first `eq` marker in a line, or, where the
/// line has none, after the first `lt` marker.
fn time_after_marker(lower: &[char], eq: &str, lt: &str) -> (r: Option<u64>)
    requires
        eq@.len() == lt@.len(),
    ensures
        r == time_after(lower@, eq@, lt@, eq@.len() as int),
{
    let n = lower.len();
    let eq_chars = chars_of(eq);
    let lt_chars = chars_of(lt);
    let at = match index_of(lower, eq_chars.as_slice()) {
        Some(i) => Some(i),
        None => index_of(lower, lt_chars.as_slice()),
    };
    match at {
        Some(i) => {
            assert(occurs_at(lower@, eq@, i as int) || occurs_at(lower@, lt@, i as int));
            assert(i + eq_chars@.len() <= n);
            leading_u64(lower, i + eq_chars.len())
        },
        None => None,
    }
}

/// The round-trip time that one lower-cased line of `ping` output reports.
pub fn line_time(lower: &[char]) -> (r: Option<u64>)
    ensures
        r == line_ping_time(lower@),
{
    proof {
        broadcast use vstd::string::group_string_axioms;
        reveal_strlit("time=");
        reveal_strlit("time<");
        reveal_strlit("время=");
        reveal_strlit("время<");
        reveal_strlit("=");
        assert("time="@.len() == 5);
        assert("время="@.len() == 6);
        assert("="@.len() == 1);
    }
    let english = time_after_marker(lower, "time=", "time<");
    if english.is_some() {
        return english;
    }
    let russian = time_after_marker(lower, "время=", "время<");
    if russian.is_some() {
        return russian;
    }
    let n = lower.len();
    let eq = chars_of("=");
    match index_of(lower, eq.as_slice()) {
        Some(j) => {
            assert(j + 1 <= n);
            let ms_en = chars_of("ms");
            let ms_ru = chars_of("мс");
            if contains_chars(lower, ms_en.as_slice()) || contains_chars(lower, ms_ru.as_slice()) {
                match leading_u64(lower, j + 1) {
                    Some(ms) => if ms < 10000 {
                        Some(ms)
                    } else {
                        None
                    },
                    None => None,
                }
            } else {
                None
            }
        },
        None => None,
    }
}

/// The round-trip time that `ping` output reports, taken from the first line
/// that reports one.
pub fn extract_ping_time(output: &str) -> (r: Option<u64>)
    ensures
        r == ping_time_of_lines(text_lines(output@)),
{
    let chars = chars_of(output);
    let lines = split_lines(chars.as_slice());
    let ghost all = text_lines(output@);
    let mut idx: usize = 0;
    assert(all.skip(0) =~= all);
    while idx < lines.len()
        invariant
            all == text_lines(output@),
            views(lines@) == all,
            idx <= lines@.len(),
            ping_time_of_lines(all) == ping_time_of_lines(all.skip(idx as int)),
        decreases lines@.len() - idx,
    {
        let text = string_from_chars(lines[idx].as_slice());
        let lower = to_lowercase(text.as_str());
        let lower_chars = chars_of(lower.as_str());
        let t = line_time(lower_chars.as_slice());
        proof {
            let rest = all.skip(idx as int);
            assert(views(lines@)[idx as int] == lines@[idx as int]@);
            assert(all.len() == lines@.len());
            assert(rest.len() > 0);
            assert(rest[0] == all[idx as int]);
            assert(all[idx as int] == lines@[idx as int]@);
            assert(text@ == all[idx as int]);
            assert(t == line_ping_time(lowered(rest[0])));
            assert(rest.drop_first() =~= all.skip(idx + 1));
        }
        if t.is_some() {
            assert(ping_time_of_lines(all.skip(idx as int)) == t);

            return t;
        }
        idx = idx + 1;
    }
    proof {
        assert(all.skip(idx as int).len() == 0);
    }
    None
}


/// Splitting at a newline: the pieces of `p`, a newline and `q` are those of
/// `p` followed by those of `q`.
proof fn lemma_newline_pieces_concat(p: Seq<char>, q: Seq<char>)
    ensures
        newline_pieces(p + seq!['\n'] + q) == newline_pieces(p) + newline_pieces(q),
    decreases q.len(),
{
    let s = p + seq!['\n'] + q;
    lemma_newline_pieces_len(p);
    if q.len() == 0 {
        assert(s.drop_last() =~= p);
        assert(newline_pieces(q) =~= seq![Seq::<char>::empty()]);
        assert(newline_pieces(s) =~= newline_pieces(p) + newline_pieces(q));
    } else {
        let q2 = q.drop_last();
        assert(s.drop_last() =~= p + seq!['\n'] + q2);
        assert(s.last() == q.last());
        lemma_newline_pieces_concat(p, q2);
        lemma_newline_pieces_len(q2);
        let np = newline_pieces(p);
        let nq2 = newline_pieces(q2);
        if q.last() == '\n' {
            assert(newline_pieces(s) =~= np + newline_pieces(q));
        } else {
            assert((np + nq2).last() == nq2.last());
            assert((np + nq2).update((np + nq2).len() - 1, nq2.last().push(q.last())) =~= np + nq2.update(
                nq2.len() - 1,
                nq2.last().push(q.last()),
            ));
            assert(newline_pieces(s) =~= np + newline_pieces(q));
        }
    }
}

/// A text without a newline is a single piece.
proof fn lemma_newline_pieces_single(a: Seq<char>)
    requires
        !a.contains('\n'),
    ensures
        newline_pieces(a) == seq![a],
    decreases a.len(),
{
    if a.len() > 0 {
        let a2 = a.drop_last();
        assert(!a2.contains('\n')) by {
            if a2.contains('\n') {
                let k = choose|k: int| 0 <= k < a2.len() && a2[k] == '\n';
                assert(a[k] == '\n');
            }
        }
        lemma_newline_pieces_single(a2);
        assert(a[a.len() - 1] == a.last());
        if a.last() == '\n' {
            assert(a.contains('\n'));
        }
        assert(a2.push(a.last()) =~= a);
        let p2 = newline_pieces(a2);
        assert(p2.len() == 1 && p2.last() == a2);
        assert(newline_pieces(a) == p2.update(0, a2.push(a.last())));
        assert(p2 == seq![a2]);
        let one = p2.update(0, a);
        assert(one.len() == 1 && one[0] == a);
        assert(one =~= seq![a]);
    } else {
        assert(a =~= Seq::<char>::empty());
    }
}

/// Lines end at `\n` or at `\r\n`, and the line ending is not part of the
/// line: a line, `\r\n` and more text are that line, then the lines of the
/// rest; a text without line break is one line, or none when it is empty.
pub proof fn law_lines_end_at_crlf(a: Seq<char>, b: Seq<char>)
    requires
        !a.contains('\n'),
    ensures
        text_lines(a + seq!['\r', '\n'] + b) == seq![a] + text_lines(b),
        a.len() > 0 ==> text_lines(a) == seq![a],
        text_lines(Seq::<char>::empty()).len() == 0,
{
    let ar = a.push('\r');
    assert(!ar.contains('\n')) by {
        if ar.contains('\n') {
            let k = choose|k: int| 0 <= k < ar.len() && ar[k] == '\n';
            assert(k < a.len());
            assert(a[k] == '\n');
        }
    }
    assert(ar + seq!['\n'] + b =~= a + seq!['\r', '\n'] + b);
    lemma_newline_pieces_concat(ar, b);
    lemma_newline_pieces_single(ar);
    lemma_newline_pieces_len(b);
    let p = newline_pieces(ar + seq!['\n'] + b);
    let nb = newline_pieces(b);
    assert(p =~= seq![ar] + nb);
    assert(without_cr(ar) =~= a);
    let k = p.len() - 1;
    assert(p[k] == nb[nb.len() - 1]);
    let head = Seq::new(k as nat, |i: int| without_cr(p[i]));
    let head_b = Seq::new((nb.len() - 1) as nat, |i: int| without_cr(nb[i]));
    assert(head =~= seq![a] + head_b);
    assert(text_lines(ar + seq!['\n'] + b) =~= seq![a] + text_lines(b));
    lemma_newline_pieces_single(a);
    assert(Seq::new(0, |i: int| without_cr(newline_pieces(a)[i])) =~= Seq::<Seq<char>>::empty());
    if a.len() > 0 {
        assert(text_lines(a) =~= seq![a]);
    }
    assert(newline_pieces(Seq::<char>::empty()) =~= seq![Seq::<char>::empty()]);
    assert(text_lines(Seq::<char>::empty()) =~= Seq::<Seq<char>>::empty());
}

/// The lines of a line, a newline and a text: that line, then the lines of
/// the text.
proof fn lemma_text_lines_concat(a: Seq<char>, b: Seq<char>)
    requires
        !a.contains('\n'),
        a.len() == 0 || a.last() != '\r',
    ensures
        text_lines(a + seq!['\n'] + b) == seq![a] + text_lines(b),
        text_lines(a) == (if a.len() > 0 { seq![a] } else { Seq::<Seq<char>>::empty() }),
{
    lemma_newline_pieces_concat(a, b);
    lemma_newline_pieces_single(a);
    lemma_newline_pieces_len(b);
    let p = newline_pieces(a + seq!['\n'] + b);
    let nb = newline_pieces(b);
    assert(p =~= seq![a] + nb);
    assert(without_cr(a) == a);
    let k = p.len() - 1;
    assert(p[k] == nb[nb.len() - 1]);
    let head = Seq::new(k as nat, |i: int| without_cr(p[i]));
    let head_b = Seq::new((nb.len() - 1) as nat, |i: int| without_cr(nb[i]));
    assert(head =~= seq![a] + head_b);
    assert(text_lines(a + seq!['\n'] + b) =~= seq![a] + text_lines(b));
    assert(Seq::new(0, |i: int| without_cr(newline_pieces(a)[i])) =~= Seq::<Seq<char>>::empty());
    assert(text_lines(a) =~= (if a.len() > 0 { seq![a] } else { Seq::<Seq<char>>::empty() }));
}

/// Lines are scanned in order: the time that a line, a newline and more
/// output report is the line's own time if it reports one, else the time
/// of the rest. The line holds no newline and does not end in a carriage
/// return, which `str::lines` would keep in it were it the last line.
pub proof fn law_ping_lines_in_order(a: Seq<char>, b: Seq<char>)
    requires
        !a.contains('\n'),
        a.len() == 0 || a.last() != '\r',
    ensures
        ping_time_of_lines(text_lines(a + seq!['\n'] + b)) == match ping_time_of_lines(text_lines(a)) {
            Some(t) => Some(t),
            None => ping_time_of_lines(text_lines(b)),
        },
{
    lemma_text_lines_concat(a, b);
    let rest = text_lines(b);
    let all = seq![a] + rest;
    assert(all[0] == a);
    assert(all.drop_first() =~= rest);
    assert(ping_time_of_lines(all) == match line_ping_time(lowered(a)) {
        Some(t) => Some(t),
        None => ping_time_of_lines(rest),
    });
    if a.len() > 0 {
        let one = seq![a];
        assert(one[0] == a);
        assert(one.drop_first() =~= Seq::<Seq<char>>::empty());
        assert(ping_time_of_lines(Seq::<Seq<char>>::empty()) is None);
        assert(ping_time_of_lines(one) == line_ping_time(lowered(a)));
    } else {
        assert(lowered(a) =~= Seq::<char>::empty());
        assert(line_ping_time(Seq::<char>::empty()) is None) by {
            reveal_strlit("time=");
            reveal_strlit("time<");
            reveal_strlit("время=");
            reveal_strlit("время<");
            reveal_strlit("=");
            assert(!(exists|i: int| occurs_at(Seq::<char>::empty(), "time="@, i)));
            assert(!(exists|i: int| occurs_at(Seq::<char>::empty(), "time<"@, i)));
            assert(!(exists|i: int| occurs_at(Seq::<char>::empty(), "время="@, i)));
            assert(!(exists|i: int| occurs_at(Seq::<char>::empty(), "время<"@, i)));
            assert(!(exists|i: int| occurs_at(Seq::<char>::empty(), "="@, i)));
        }
    }
}

/// Whether a character has the Unicode `White_Space` property: the
/// characters U+0009 to U+000D, U+0020, U+0085, U+00A0, U+1680, U+2000 to
/// U+200A, U+2028, U+2029, U+202F, U+205F and U+3000.
pub open spec fn white_space(c: char) -> bool {
    let u = c as u32;
    ||| 0x09 <= u <= 0x0D
    ||| u == 0x20
    ||| u == 0x85
    ||| u == 0xA0
    ||| u == 0x1680
    ||| 0x2000 <= u <= 0x200A
    ||| u == 0x2028
    ||| u == 0x2029
    ||| u == 0x202F
    ||| u == 0x205F
    ||| u == 0x3000
}

/// Whether a character is white space, as `char::is_whitespace` answers.
pub fn is_whitespace(c: char) -> (b: bool)
    ensures
        b == white_space(c),
{
    let u = c as u32;
    (0x09 <= u && u <= 0x0D) || u == 0x20 || u == 0x85 || u == 0xA0 || u == 0x1680 || (0x2000
        <= u && u <= 0x200A) || u == 0x2028 || u == 0x2029 || u == 0x202F || u == 0x205F || u
        == 0x3000
}

/// The white space characters: tab, line feed, vertical tab, form feed,
/// carriage return, space, next line, no-break space, Ogham space mark, the
/// eleven spaces from en quad to hair space, line and paragraph separator,
/// narrow no-break space, medium mathematical space and ideographic space;
/// zero-width space and byte order mark are not among them.
pub proof fn law_white_space_characters(c: char)
    ensures
        white_space(c) <==> (c == '\t' || c == '\n' || c == '\u{0B}' || c == '\u{0C}' || c == '\r' || c
            == ' ' || c == '\u{85}' || c == '\u{A0}' || c == '\u{1680}' || ('\u{2000}' <= c && c
            <= '\u{200A}') || c == '\u{2028}' || c == '\u{2029}' || c == '\u{202F}' || c == '\u{205F}'
            || c == '\u{3000}'),
        !white_space('\u{200B}') && !white_space('\u{FEFF}'),
{
}

/// Lower-casing ASCII text keeps its length and lowers `A` to `Z` (65 to 90)
/// to `a` to `z`, leaving every other character as it is.
pub proof fn law_ascii_lowering(s: Seq<char>)
    requires
        is_ascii_text(s),
    ensures
        lowered(s).len() == s.len(),
        forall|i: int| 0 <= i < s.len() && 65 <= #[trigger] s[i] as u32 <= 90 ==> lowered(s)[i] as u32
            == s[i] as u32 + 32,
        forall|i: int| 0 <= i < s.len() && !(65 <= #[trigger] s[i] as u32 <= 90) ==> lowered(s)[i]
            == s[i],
{
}

/// How many of the flags at the start are set.
pub open spec fn lead(w: Seq<bool>) -> nat
    decreases w.len(),
{
    if w.len() > 0 && w[0] {
        1 + lead(w.drop_first())
    } else {
        0
    }
}

/// How many of the flags at the end are set.
pub open spec fn trail(w: Seq<bool>) -> nat
    decreases w.len(),
{
    if w.len() > 0 && w.last() {
        1 + trail(w.drop_last())
    } else {
        0
    }
}

/// The text without the characters flagged in `w` at its start and its end.
pub open spec fn trim_by(s: Seq<char>, w: Seq<bool>) -> Seq<char> {
    let a = lead(w) as int;
    s.subrange(a, s.len() - trail(w.skip(a)))
}

/// Which characters of the text are white space.
pub open spec fn spaces(s: Seq<char>) -> Seq<bool> {
    Seq::new(s.len(), |i: int| white_space(s[i]))
}

/// The text without leading or trailing white space, as `str::trim` gives it.
pub open spec fn trimmed(s: Seq<char>) -> Seq<char> {
    trim_by(s, spaces(s))
}

/// The text without the characters flagged in `space` at its start and end.
pub fn trim_with(s: &[char], space: &[bool]) -> (t: Vec<char>)
    requires
        space@.len() == s@.len(),
    ensures
        t@ == trim_by(s@, space@),
{
    let ghost w = space@;
    let n = s.len();
    let mut a: usize = 0;
    assert(w.skip(0) =~= w);
    while a < n && space[a]
        invariant
            n == s@.len(),
            n == w.len(),
            w == space@,
            a <= n,
            lead(w) == a + lead(w.skip(a as int)),
        decreases n - a,
    {
        proof {
            let r = w.skip(a as int);
            assert(r[0] == w[a as int]);
            assert(r.drop_first() =~= w.skip(a + 1));
        }
        a = a + 1;
    }
    proof {
        let r = w.skip(a as int);
        if a < n {
            assert(r[0] == w[a as int]);
        }
        assert(lead(w) == a);
    }
    let ghost rest = w.skip(a as int);
    let mut b: usize = n;
    assert(rest.take(rest.len() as int) =~= rest);
    while b > a && space[b - 1]
        invariant
            n == s@.len(),
            n == w.len(),
            w == space@,
            a <= b <= n,
            rest == w.skip(a as int),
            trail(rest) == (n - b) + trail(rest.take(b - a)),
        decreases b,
    {
        proof {
            let r = rest.take(b - a);
            assert(r.last() == w[b - 1]);
            assert(r.drop_last() =~= rest.take(b - 1 - a));
        }
        b = b - 1;
    }
    proof {
        let r = rest.take(b - a);
        if b > a {
            assert(r.last() == w[b - 1]);
        }
        assert(trail(rest) == n - b);
    }
    let mut t: Vec<char> = Vec::new();
    let mut i: usize = a;
    while i < b
        invariant
            a <= i <= b <= n,
            n == s@.len(),
            t@ == s@.subrange(a as int, i as int),
        decreases b - i,
    {
        t.push(s[i]);
        i = i + 1;
        assert(t@ =~= s@.subrange(a as int, i as int));
    }
    t
}

/// The characters of a text without leading or trailing white space.
pub fn trim_chars(s: &[char]) -> (t: Vec<char>)
    ensures
        t@ == trimmed(s@),
{
    let mut space: Vec<bool> = Vec::new();
    let mut i: usize = 0;
    while i < s.len()
        invariant
            i <= s@.len(),
            space@ == spaces(s@).take(i as int),
        decreases s@.len() - i,
    {
        space.push(is_whitespace(s[i]));
        i = i + 1;
        assert(space@ =~= spaces(s@).take(i as int));
    }
    assert(spaces(s@).take(s@.len() as int) =~= spaces(s@));
    trim_with(s, space.as_slice())
}

/// Every character of the text is white space.
pub open spec fn all_white(s: Seq<char>) -> bool {
    forall|i: int| 0 <= i < s.len() ==> white_space(#[trigger] s[i])
}

proof fn lemma_lead_of(a: Seq<bool>, b: Seq<bool>)
    requires
        forall|i: int| 0 <= i < a.len() ==> #[trigger] a[i],
        b.len() == 0 || !b[0],
    ensures
        lead(a + b) == a.len(),
    decreases a.len(),
{
    if a.len() == 0 {
        assert(a + b =~= b);
    } else {
        let a2 = a.drop_first();
        assert forall|i: int| 0 <= i < a2.len() implies #[trigger] a2[i] by {
            assert(a2[i] == a[i + 1]);
        }
        assert((a + b).drop_first() =~= a2 + b);
        assert((a + b)[0] == a[0]);
        lemma_lead_of(a2, b);
    }
}

proof fn lemma_trail_of(a: Seq<bool>, b: Seq<bool>)
    requires
        forall|i: int| 0 <= i < b.len() ==> #[trigger] b[i],
        a.len() == 0 || !a.last(),
    ensures
        trail(a + b) == b.len(),
    decreases b.len(),
{
    if b.len() == 0 {
        assert(a + b =~= a);
        if a.len() > 0 {
            assert((a + b).last() == a.last());
        }
    } else {
        let b2 = b.drop_last();
        assert forall|i: int| 0 <= i < b2.len() implies #[trigger] b2[i] by {
            assert(b2[i] == b[i]);
        }
        assert((a + b).drop_last() =~= a + b2);
        assert((a + b).last() == b[b.len() - 1]);
        lemma_trail_of(a, b2);
    }
}

/// Trimming takes off exactly the white space around the text: a text made
/// of white space, then a part that neither starts nor ends with white
/// space (or is empty), then white space again, trims to that part.
pub proof fn law_trim_keeps_the_middle(w1: Seq<char>, t: Seq<char>, w2: Seq<char>)
    requires
        all_white(w1),
        all_white(w2),
        t.len() > 0 ==> !white_space(t[0]) && !white_space(t.last()),
    ensures
        trimmed(w1 + t + w2) == t,
{
    let s = w1 + t + w2;
    let w = spaces(s);
    let n1 = w1.len() as int;
    let n2 = w2.len() as int;
    let sp1 = w.subrange(0, n1);
    let rest = w.subrange(n1, w.len() as int);
    assert(w =~= sp1 + rest);
    assert forall|i: int| 0 <= i < sp1.len() implies #[trigger] sp1[i] by {
        assert(s[i] == w1[i]);
    }
    if t.len() > 0 {
        assert(rest[0] == w[n1]);
        assert(s[n1] == t[0]);
        lemma_lead_of(sp1, rest);
        let mid = w.subrange(n1, n1 + t.len());
        let sp2 = w.subrange(n1 + t.len(), w.len() as int);
        assert(w.skip(n1) =~= mid + sp2);
        assert forall|i: int| 0 <= i < sp2.len() implies #[trigger] sp2[i] by {
            assert(s[n1 + t.len() + i] == w2[i]);
        }
        assert(mid.last() == w[n1 + t.len() - 1]);
        assert(s[n1 + t.len() - 1] == t.last());
        lemma_trail_of(mid, sp2);
        assert(trimmed(s) =~= t);
    } else {
        assert forall|i: int| 0 <= i < rest.len() implies #[trigger] rest[i] by {
            assert(s[n1 + i] == w2[i]);
        }
        lemma_lead_of(w, Seq::<bool>::empty());
        assert(w + Seq::<bool>::empty() =~= w);
        assert forall|i: int| 0 <= i < w.len() implies #[trigger] w[i] by {
            if i < n1 {
                assert(sp1[i] == w[i]);
            } else {
                assert(rest[i - n1] == w[i]);
            }
        }
        assert(w.skip(w.len() as int) =~= Seq::<bool>::empty());
        assert(trimmed(s) =~= t);
    }
}

/// The name of the network adapter in what `Get-NetAdapter` printed, when
/// it printed one.
pub open spec fn adapter_of_text(text: Seq<char>) -> Option<Seq<char>> {
    let t = trimmed(text);
    if t.len() == 0 { None } else { Some(t) }
}

/// The name of the network adapter that `Get-NetAdapter` printed, when it
/// printed one.
pub open spec fn adapter_of_output(stdout: Seq<u8>) -> Option<Seq<char>> {
    adapter_of_text(lossy_text(stdout))
}

/// The name of the network adapter in what `Get-NetAdapter` printed.
pub fn adapter_from_text(text: &str) -> (name: Option<String>)
    ensures
        match name {
            Some(n) => adapter_of_text(text@) == Some(n@),
            None => adapter_of_text(text@) is None,
        },
{
    let chars = chars_of(text);
    let t = trim_chars(chars.as_slice());
    if t.len() == 0 {
        None
    } else {
        Some(string_from_chars(t.as_slice()))
    }
}

/// The name of the network adapter that `Get-NetAdapter` printed.
pub fn adapter_from_output(stdout: &[u8]) -> (name: Option<String>)
    ensures
        match name {
            Some(n) => adapter_of_output(stdout@) == Some(n@),
            None => adapter_of_output(stdout@) is None,
        },
{
    let text = utf8_lossy(stdout);
    adapter_from_text(text.as_str())
}

/// The DNS server list as shown: each line break becomes `, ` and carriage
/// returns are dropped.
pub open spec fn dns_list_text(s: Seq<char>) -> Seq<char>
    decreases s.len(),
{
    if s.len() == 0 {
        Seq::empty()
    } else {
        dns_list_text(s.drop_last()) + if s.last() == '\n' {
            seq![',', ' ']
        } else if s.last() == '\r' {
            Seq::<char>::empty()
        } else {
            seq![s.last()]
        }
    }
}

/// The server list is built line by line: each line break becomes `, `, a
/// carriage return is dropped, and every other character is kept, so the
/// list of two texts one after the other is the two lists joined.
pub proof fn law_dns_list_joins_lines(a: Seq<char>, b: Seq<char>)
    ensures
        dns_list_text(a + b) == dns_list_text(a) + dns_list_text(b),
        dns_list_text(seq!['\n']) == seq![',', ' '],
        dns_list_text(seq!['\r']) == Seq::<char>::empty(),
        forall|c: char| c != '\n' && c != '\r' ==> #[trigger] dns_list_text(seq![c]) == seq![c],
    decreases b.len(),
{
    if b.len() == 0 {
        assert(a + b =~= a);
        assert(dns_list_text(a) + Seq::<char>::empty() =~= dns_list_text(a));
    } else {
        let b2 = b.drop_last();
        assert((a + b).drop_last() =~= a + b2);
        assert((a + b).last() == b.last());
        law_dns_list_joins_lines(a, b2);
    }
    assert forall|c: char| c != '\n' && c != '\r' implies #[trigger] dns_list_text(seq![c]) == seq![c] by {
        assert(seq![c].drop_last() =~= Seq::<char>::empty());
        assert(seq![c].last() == c);
        assert(dns_list_text(Seq::<char>::empty()) == Seq::<char>::empty());
        assert(Seq::<char>::empty() + seq![c] =~= seq![c]);
    }
    assert(dns_list_text(Seq::<char>::empty()) == Seq::<char>::empty());
    assert(seq!['\n'].drop_last() =~= Seq::<char>::empty());
    assert(seq!['\n'].last() == '\n');
    assert(seq!['\r'].drop_last() =~= Seq::<char>::empty());
    assert(seq!['\r'].last() == '\r');
    assert(Seq::<char>::empty() + seq![',', ' '] =~= seq![',', ' ']);
    assert(Seq::<char>::empty() + Seq::<char>::empty() =~= Seq::<char>::empty());
}

/// What the DNS check shows for what `Get-DnsClientServerAddress` printed:
/// the servers, or "Не определено" (unknown) when it printed nothing.
pub open spec fn dns_of_text(text: Seq<char>) -> Seq<char> {
    let t = trimmed(text);
    if t.len() == 0 { "Не определено"@ } else { dns_list_text(t) }
}

/// What the DNS check shows for the bytes `Get-DnsClientServerAddress` printed.
pub open spec fn dns_of_output(stdout: Seq<u8>) -> Seq<char> {
    dns_of_text(lossy_text(stdout))
}

/// What the DNS check shows for what `Get-DnsClientServerAddress` printed.
pub fn dns_from_text(text: &str) -> (dns: Option<String>)
    ensures
        dns matches Some(d) && d@ == dns_of_text(text@),
{
    let chars = chars_of(text);
    let t = trim_chars(chars.as_slice());
    if t.len() == 0 {
        return Some(String::from_str("Не определено"));
    }
    let mut out: Vec<char> = Vec::new();
    let mut i: usize = 0;
    assert(t@.take(0) =~= Seq::<char>::empty());
    while i < t.len()
        invariant
            i <= t@.len(),
            out@ == dns_list_text(t@.take(i as int)),
        decreases t@.len() - i,
    {
        let c = t[i];
        proof {
            let p = t@.take(i + 1);
            assert(p.drop_last() =~= t@.take(i as int));
            assert(p.last() == c);
        }
        if c == '\n' {
            out.push(',');
            out.push(' ');
        } else if c != '\r' {
            out.push(c);
        }
        assert(out@ =~= dns_list_text(t@.take(i + 1)));
        i = i + 1;
    }
    assert(t@.take(t@.len() as int) =~= t@);
    Some(string_from_chars(out.as_slice()))
}

/// What the DNS check shows for the bytes `Get-DnsClientServerAddress` printed.
pub fn dns_from_output(stdout: &[u8]) -> (dns: Option<String>)
    ensures
        dns matches Some(d) && d@ == dns_of_output(stdout@),
{
    let text = utf8_lossy(stdout);
    dns_from_text(text.as_str())
}

/// What a ping reports, given the text it printed: whether the host
/// answered (the command succeeded and its output shows a TTL), and the
/// round-trip time it printed, or the measured time when it printed none.
pub open spec fn ping_result_of_text(success: bool, text: Seq<char>, elapsed_ms: u64) -> (bool, Option<u64>) {
    if success && (contains_text(text, "TTL="@) || contains_text(text, "ttl="@)) {
        match ping_time_of_lines(text_lines(text)) {
            Some(t) => (true, Some(t)),
            None => (true, Some(elapsed_ms)),
        }
    } else {
        (false, None)
    }
}

/// A ping counts as reaching the host only when it succeeded and its text
/// shows a TTL (`TTL=` or `ttl=`); then its time is the one the output
/// reports, or, when no line reports one, the measured time.
pub proof fn law_ping_result(success: bool, text: Seq<char>, elapsed_ms: u64)
    ensures
        !success ==> ping_result_of_text(success, text, elapsed_ms) == (false, None::<u64>),
        !contains_text(text, "TTL="@) && !contains_text(text, "ttl="@) ==> ping_result_of_text(
            success,
            text,
            elapsed_ms,
        ) == (false, None::<u64>),
        success && (contains_text(text, "TTL="@) || contains_text(text, "ttl="@)) ==> ping_result_of_text(
            success,
            text,
            elapsed_ms,
        ) == (true, Some(
            match ping_time_of_lines(text_lines(text)) {
                Some(t) => t,
                None => elapsed_ms,
            },
        )),
{
}

/// What a ping reports, given the bytes it printed.
pub open spec fn ping_result(success: bool, stdout: Seq<u8>, elapsed_ms: u64) -> (bool, Option<u64>) {
    ping_result_of_text(success, lossy_text(stdout), elapsed_ms)
}

/// What a finished `ping` run reports, given the text it printed.
pub fn ping_outcome_text(success: bool, text: &str, elapsed_ms: u64) -> (r: (bool, Option<u64>))
    ensures
        r == ping_result_of_text(success, text@, elapsed_ms),
{
    let chars = chars_of(text);
    let ttl_up = chars_of("TTL=");
    let ttl_low = chars_of("ttl=");
    let ok = success && (contains_chars(chars.as_slice(), ttl_up.as_slice()) || contains_chars(
        chars.as_slice(),
        ttl_low.as_slice(),
    ));
    if ok {
        match extract_ping_time(text) {
            Some(t) => (true, Some(t)),
            None => (true, Some(elapsed_ms)),
        }
    } else {
        (false, None)
    }
}

/// What a finished `ping` run reports.
pub fn ping_outcome(success: bool, stdout: &[u8], elapsed_ms: u64) -> (r: (bool, Option<u64>))
    ensures
        r == ping_result(success, stdout@, elapsed_ms),
{
    let text = utf8_lossy(stdout);
    ping_outcome_text(success, text.as_str(), elapsed_ms)
}

/// The latency that a reachable probe counts with: the measured one, or the
/// given default when none was measured.
pub open spec fn latency_or(p: (bool, Option<u64>), default: u64) -> int {
    match p.1 {
        Some(ms) => ms as int,
        None => default as int,
    }
}

/// Milliseconds that the TCP probes add to the benchmark total: the latency
/// of each reachable probe, 5000 when it measured none.
pub open spec fn tcp_total(ps: Seq<(bool, Option<u64>)>) -> int
    decreases ps.len(),
{
    if ps.len() == 0 {
        0
    } else {
        tcp_total(ps.drop_last()) + if ps.last().0 { latency_or(ps.last(), 5000) } else { 0 }
    }
}

/// Milliseconds that the HTTPS probes add: three times the latency of each
/// reachable probe, 10000 when it measured none.
pub open spec fn https_total(ps: Seq<(bool, Option<u64>)>) -> int
    decreases ps.len(),
{
    if ps.len() == 0 {
        0
    } else {
        https_total(ps.drop_last()) + if ps.last().0 { 3 * latency_or(ps.last(), 10000) } else { 0 }
    }
}

/// How many probes reached the host.
pub open spec fn reachable_count(ps: Seq<(bool, Option<u64>)>) -> int
    decreases ps.len(),
{
    if ps.len() == 0 {
        0
    } else {
        reachable_count(ps.drop_last()) + if ps.last().0 { 1int } else { 0int }
    }
}

/// The weight of the probes that reached their hosts: a TCP probe counts
/// once, an HTTPS probe three times.
pub open spec fn ok_weight(tcp: Seq<(bool, Option<u64>)>, https: Seq<(bool, Option<u64>)>) -> int {
    reachable_count(tcp) + 3 * reachable_count(https)
}

/// The weighted sum of the latencies of the probes that reached their hosts.
pub open spec fn success_total(tcp: Seq<(bool, Option<u64>)>, https: Seq<(bool, Option<u64>)>) -> int {
    tcp_total(tcp) + https_total(https)
}

/// The benchmark's outcome: whether anything worked, and the score, which is
/// the weighted average latency of the probes that reached their hosts
/// (lower is faster), or `u64::MAX` when no probe reached its host.
pub open spec fn benchmark_result(tcp: Seq<(bool, Option<u64>)>, https: Seq<(bool, Option<u64>)>) -> (bool, u64) {
    if ok_weight(tcp, https) == 0 {
        (false, u64::MAX)
    } else {
        (true, (success_total(tcp, https) / ok_weight(tcp, https)) as u64)
    }
}

proof fn lemma_counts_bounded(ps: Seq<(bool, Option<u64>)>)
    ensures
        0 <= reachable_count(ps) <= ps.len(),
        tcp_total(ps) >= 0,
        https_total(ps) >= 0,
    decreases ps.len(),
{
    if ps.len() > 0 {
        lemma_counts_bounded(ps.drop_last());
    }
}

/// Scores the Telegram connectivity benchmark from its probes' results:
/// `tcp` holds the TCP connection checks, `https` the HTTPS requests, each
/// as (reached, latency in ms).
pub fn benchmark_telegram(tcp: &[(bool, Option<u64>)], https: &[(bool, Option<u64>)]) -> (r: (bool, u64))
    requires
        tcp@.len() + 3 * https@.len() <= u64::MAX,
        success_total(tcp@, https@) <= u64::MAX,
    ensures
        r == benchmark_result(tcp@, https@),
{
    let mut total_ms: u64 = 0;
    let mut ok_count: u64 = 0;
    let mut i: usize = 0;
    proof {
        lemma_counts_bounded(tcp@);
        lemma_counts_bounded(https@);
        assert(tcp@.take(0) =~= Seq::<(bool, Option<u64>)>::empty());
        assert(https@.take(0) =~= Seq::<(bool, Option<u64>)>::empty());
    }
    while i < tcp.len()
        invariant
            i <= tcp@.len(),
            tcp@.len() + 3 * https@.len() <= u64::MAX,
            success_total(tcp@, https@) <= u64::MAX,
            total_ms == tcp_total(tcp@.take(i as int)),
            ok_count == reachable_count(tcp@.take(i as int)),
            tcp_total(tcp@.take(i as int)) <= tcp_total(tcp@),
            0 <= reachable_count(tcp@.take(i as int)) <= i,
            reachable_count(tcp@.take(i as int)) + (tcp@.len() - i) >= reachable_count(tcp@),
        decreases tcp@.len() - i,
    {
        let (ok, latency) = tcp[i];
        proof {
            let p = tcp@.take(i + 1);
            assert(p.drop_last() =~= tcp@.take(i as int));
            assert(p.last() == tcp@[i as int]);
            lemma_prefix_totals(tcp@, i + 1);
            lemma_counts_bounded(https@);
        }
        if ok {
            let ms: u64 = match latency {
                Some(v) => v,
                None => 5000,
            };
            total_ms = total_ms + ms;
            ok_count = ok_count + 1;
        }
        i = i + 1;
    }
    assert(tcp@.take(tcp@.len() as int) =~= tcp@);
    let mut j: usize = 0;
    while j < https.len()
        invariant
            j <= https@.len(),
            tcp@.len() + 3 * https@.len() <= u64::MAX,
            success_total(tcp@, https@) <= u64::MAX,
            total_ms == tcp_total(tcp@) + https_total(https@.take(j as int)),
            ok_count == reachable_count(tcp@) + 3 * reachable_count(https@.take(j as int)),
            https_total(https@.take(j as int)) <= https_total(https@),
            0 <= reachable_count(https@.take(j as int)) <= j,
            reachable_count(https@.take(j as int)) + (https@.len() - j) >= reachable_count(https@),
            0 <= reachable_count(tcp@) <= tcp@.len(),
            tcp_total(tcp@) >= 0,
        decreases https@.len() - j,
    {
        let (ok, latency) = https[j];
        proof {
            let p = https@.take(j + 1);
            assert(p.drop_last() =~= https@.take(j as int));
            assert(p.last() == https@[j as int]);
            lemma_prefix_totals(https@, j + 1);
        }
        if ok {
            let ms: u64 = match latency {
                Some(v) => v,
                None => 10000,
            };
            total_ms = total_ms + ms * 3;
            ok_count = ok_count + 3;
        }
        j = j + 1;
    }
    assert(https@.take(https@.len() as int) =~= https@);
    if ok_count == 0 {
        return (false, u64::MAX);
    }
    (true, total_ms / ok_count)
}

/// Whether the benchmark can score these probe results: its weights and its
/// total of latencies fit in a `u64`.
pub fn benchmark_in_range(tcp: &[(bool, Option<u64>)], https: &[(bool, Option<u64>)]) -> (b: bool)
    ensures
        b == (tcp@.len() + 3 * https@.len() <= u64::MAX && success_total(tcp@, https@) <= u64::MAX),
{
    let n_tcp = tcp.len() as u64;
    let n_https = https.len() as u64;
    let weight = match n_https.checked_mul(3) {
        Some(w) => w.checked_add(n_tcp),
        None => None,
    };
    if weight.is_none() {
        return false;
    }
    proof {
        lemma_counts_bounded(tcp@);
        lemma_counts_bounded(https@);
        assert(tcp@.take(0) =~= Seq::<(bool, Option<u64>)>::empty());
        assert(https@.take(0) =~= Seq::<(bool, Option<u64>)>::empty());
    }
    let mut total: u64 = 0;
    let mut i: usize = 0;
    while i < tcp.len()
        invariant
            i <= tcp@.len(),
            tcp@.len() + 3 * https@.len() <= u64::MAX,
            total == tcp_total(tcp@.take(i as int)),
            0 <= reachable_count(tcp@.take(i as int)) <= i,
            tcp_total(tcp@) >= 0,
            https_total(https@) >= 0,
            0 <= reachable_count(https@) <= https@.len(),
            0 <= reachable_count(tcp@) <= tcp@.len(),
        decreases tcp@.len() - i,
    {
        let (ok, latency) = tcp[i];
        proof {
            let p = tcp@.take(i + 1);
            assert(p.drop_last() =~= tcp@.take(i as int));
            assert(p.last() == tcp@[i as int]);
            lemma_prefix_totals(tcp@, i + 1);
            lemma_counts_bounded(tcp@.take(i + 1));
        }
        if ok {
            let ms: u64 = match latency {
                Some(v) => v,
                None => 5000,
            };
            match total.checked_add(ms) {
                Some(t) => {
                    total = t;
                },
                None => {
                    proof {
                        lemma_prefix_totals(tcp@, i + 1);
                    }
                    return false;
                },
            }
        }
        i = i + 1;
    }
    assert(tcp@.take(tcp@.len() as int) =~= tcp@);
    let mut j: usize = 0;
    while j < https.len()
        invariant
            j <= https@.len(),
            tcp@.len() + 3 * https@.len() <= u64::MAX,
            total == tcp_total(tcp@) + https_total(https@.take(j as int)),
            0 <= reachable_count(https@.take(j as int)) <= j,
            tcp_total(tcp@) >= 0,
            https_total(https@) >= 0,
            0 <= reachable_count(tcp@) <= tcp@.len(),
        decreases https@.len() - j,
    {
        let (ok, latency) = https[j];
        proof {
            let p = https@.take(j + 1);
            assert(p.drop_last() =~= https@.take(j as int));
            assert(p.last() == https@[j as int]);
            lemma_prefix_totals(https@, j + 1);
            lemma_counts_bounded(https@.take(j + 1));
        }
        if ok {
            let ms: u64 = match latency {
                Some(v) => v,
                None => 10000,
            };
            let sum = match ms.checked_mul(3) {
                Some(m) => total.checked_add(m),
                None => None,
            };
            match sum {
                Some(t) => {
                    total = t;
                },
                None => {
                    proof {
                        lemma_prefix_totals(https@, j + 1);
                    }
                    return false;
                },
            }
        }
        j = j + 1;
    }
    assert(https@.take(https@.len() as int) =~= https@);
    true
}

/// The totals of a prefix are at most those of the whole, and a prefix
/// reaches at most as many hosts, but no fewer than the whole minus what
/// follows it.
proof fn lemma_prefix_totals(ps: Seq<(bool, Option<u64>)>, i: int)
    requires
        0 <= i <= ps.len(),
    ensures
        tcp_total(ps.take(i)) <= tcp_total(ps),
        https_total(ps.take(i)) <= https_total(ps),
        reachable_count(ps.take(i)) <= reachable_count(ps),
        reachable_count(ps.take(i)) + (ps.len() - i) >= reachable_count(ps),
    decreases ps.len(),
{
    if i < ps.len() {
        assert(ps.drop_last().take(i) =~= ps.take(i));
        lemma_prefix_totals(ps.drop_last(), i);
    } else {
        assert(ps.take(i) =~= ps);
    }
}


/// The probe totals add up probe by probe: those of two runs of probes one
/// after the other are the sums of theirs.
pub proof fn law_probe_totals_add(a: Seq<(bool, Option<u64>)>, b: Seq<(bool, Option<u64>)>)
    ensures
        tcp_total(a + b) == tcp_total(a) + tcp_total(b),
        https_total(a + b) == https_total(a) + https_total(b),
        reachable_count(a + b) == reachable_count(a) + reachable_count(b),
    decreases b.len(),
{
    if b.len() == 0 {
        assert(a + b =~= a);
    } else {
        let b2 = b.drop_last();
        assert((a + b).drop_last() =~= a + b2);
        assert((a + b).last() == b.last());
        law_probe_totals_add(a, b2);
    }
}

/// What one probe adds: a reachable TCP probe its latency (5000 ms when it
/// measured none), a reachable HTTPS probe three times its latency (10000 ms
/// when it measured none), and a probe that failed nothing; a reachable
/// probe counts as one reached host.
pub proof fn law_probe_totals_single(p: (bool, Option<u64>))
    ensures
        tcp_total(seq![p]) == if p.0 {
            match p.1 {
                Some(ms) => ms as int,
                None => 5000int,
            }
        } else {
            0int
        },
        https_total(seq![p]) == if p.0 {
            match p.1 {
                Some(ms) => 3 * ms,
                None => 30000int,
            }
        } else {
            0int
        },
        reachable_count(seq![p]) == if p.0 {
            1int
        } else {
            0int
        },
{
    let one = seq![p];
    let none = Seq::<(bool, Option<u64>)>::empty();
    assert(one.drop_last() =~= none);
    assert(one.last() == p);
    assert(tcp_total(none) == 0 && https_total(none) == 0 && reachable_count(none) == 0);
    assert(tcp_total(one) == tcp_total(none) + if p.0 { latency_or(p, 5000) } else { 0 });
    assert(https_total(one) == https_total(none) + if p.0 { 3 * latency_or(p, 10000) } else { 0 });
}

/// Probes that all reached their hosts in `ms` milliseconds.
pub open spec fn all_reached_in(ps: Seq<(bool, Option<u64>)>, ms: u64) -> bool {
    forall|i: int| 0 <= i < ps.len() ==> #[trigger] ps[i] == (true, Some(ms))
}

proof fn lemma_uniform_totals(ps: Seq<(bool, Option<u64>)>, ms: u64)
    requires
        all_reached_in(ps, ms),
    ensures
        tcp_total(ps) == ms * ps.len(),
        https_total(ps) == 3 * ms * ps.len(),
        reachable_count(ps) == ps.len(),
    decreases ps.len(),
{
    if ps.len() > 0 {
        let q = ps.drop_last();
        assert forall|i: int| 0 <= i < q.len() implies #[trigger] q[i] == (true, Some(ms)) by {
            assert(q[i] == ps[i]);
        }
        lemma_uniform_totals(q, ms);
        assert(ps.last() == ps[ps.len() - 1]);
        assert(ps[ps.len() - 1] == (true, Some(ms)));
        assert(latency_or(ps.last(), 5000) == ms);
        assert(tcp_total(ps) == tcp_total(q) + ms);
        assert(ms * ps.len() == ms * q.len() + ms) by (nonlinear_arith)
            requires
                ps.len() == q.len() + 1,
        ;
        assert(3 * ms * ps.len() == 3 * ms * q.len() + 3 * ms) by (nonlinear_arith)
            requires
                ps.len() == q.len() + 1,
        ;
    } else {
        assert(ms * ps.len() == 0 && 3 * ms * ps.len() == 0) by (nonlinear_arith)
            requires
                ps.len() == 0,
        ;
    }
}

/// When every probe reached its host in the same time, the score is that
/// time, however many probes of each kind there are.
pub proof fn law_uniform_latency_score(tcp: Seq<(bool, Option<u64>)>, https: Seq<(bool, Option<u64>)>, ms: u64)
    requires
        all_reached_in(tcp, ms),
        all_reached_in(https, ms),
        tcp.len() + https.len() > 0,
    ensures
        benchmark_result(tcp, https) == (true, ms),
{
    lemma_uniform_totals(tcp, ms);
    lemma_uniform_totals(https, ms);
    let w: int = tcp.len() as int + 3 * https.len();
    assert(success_total(tcp, https) == ms * w) by (nonlinear_arith)
        requires
            success_total(tcp, https) == ms * tcp.len() + 3 * ms * https.len(),
            w == tcp.len() + 3 * https.len(),
    ;
    assert((ms * w) / w == ms) by (nonlinear_arith)
        requires
            w > 0,
    ;
}

/// An HTTPS probe weighs three times a TCP probe: one of each, reached in
/// `a` and `b` milliseconds, score `(a + 3b) / 4`; a failed probe only
/// drops out of the average.
pub proof fn law_https_weighs_three(a: u64, b: u64)
    ensures
        benchmark_result(seq![(true, Some(a))], seq![(true, Some(b))]) == (true, ((a + 3 * b) / 4) as u64),
        benchmark_result(seq![(true, Some(a)), (false, None)], seq![(true, Some(b))]) == (true, ((a + 3
            * b) / 4) as u64),
        benchmark_result(seq![(true, Some(a))], seq![(true, Some(b)), (false, None)]) == (true, ((a + 3
            * b) / 4) as u64),
{
    let t = (true, Some(a));
    let h = (true, Some(b));
    let f: (bool, Option<u64>) = (false, None);
    law_probe_totals_single(t);
    law_probe_totals_single(h);
    law_probe_totals_single(f);
    law_probe_totals_add(seq![t], seq![f]);
    law_probe_totals_add(seq![h], seq![f]);
    assert(seq![t] + seq![f] =~= seq![t, f]);
    assert(seq![h] + seq![f] =~= seq![h, f]);
}

/// Two runs of the same probes, with the same ones reaching their hosts,
/// and each latency that counts no higher in the first run.
pub open spec fn no_slower(
    a: Seq<(bool, Option<u64>)>,
    b: Seq<(bool, Option<u64>)>,
    default: u64,
) -> bool {
    &&& a.len() == b.len()
    &&& forall|i: int| 0 <= i < a.len() ==> (#[trigger] a[i]).0 == b[i].0
    &&& forall|i: int| 0 <= i < a.len() && (#[trigger] a[i]).0 ==> latency_or(a[i], default) <= latency_or(b[i], default)
}

proof fn lemma_no_slower_sums(a: Seq<(bool, Option<u64>)>, b: Seq<(bool, Option<u64>)>, default: u64)
    requires
        no_slower(a, b, default),
    ensures
        reachable_count(a) == reachable_count(b),
        default == 5000 ==> tcp_total(a) <= tcp_total(b),
        default == 10000 ==> https_total(a) <= https_total(b),
    decreases a.len(),
{
    if a.len() > 0 {
        let a2 = a.drop_last();
        let b2 = b.drop_last();
        assert forall|i: int| 0 <= i < a2.len() implies (#[trigger] a2[i]).0 == b2[i].0 by {
            assert(a2[i] == a[i]);
        }
        assert forall|i: int| 0 <= i < a2.len() && (#[trigger] a2[i]).0 implies latency_or(a2[i], default)
            <= latency_or(b2[i], default) by {
            assert(a2[i] == a[i] && b2[i] == b[i]);
        }
        lemma_no_slower_sums(a2, b2, default);
        assert(a.last() == a[a.len() - 1]);
    }
}

/// A lower score means a faster connection: when the same probes reach
/// their hosts and no counted latency is higher, the score is no higher.
pub proof fn law_benchmark_monotone(
    tcp1: Seq<(bool, Option<u64>)>,
    https1: Seq<(bool, Option<u64>)>,
    tcp2: Seq<(bool, Option<u64>)>,
    https2: Seq<(bool, Option<u64>)>,
)
    requires
        no_slower(tcp1, tcp2, 5000),
        no_slower(https1, https2, 10000),
        success_total(tcp2, https2) <= u64::MAX,
    ensures
        benchmark_result(tcp1, https1).0 == benchmark_result(tcp2, https2).0,
        benchmark_result(tcp1, https1).1 <= benchmark_result(tcp2, https2).1,
{
    lemma_no_slower_sums(tcp1, tcp2, 5000);
    lemma_no_slower_sums(https1, https2, 10000);
    lemma_counts_bounded(tcp1);
    lemma_counts_bounded(https1);
    lemma_counts_bounded(tcp2);
    lemma_counts_bounded(https2);
    if ok_weight(tcp1, https1) != 0 {
        let n = ok_weight(tcp1, https1);
        let x = success_total(tcp1, https1);
        let y = success_total(tcp2, https2);
        assert(n == ok_weight(tcp2, https2));
        assert(0 <= x <= y);
        assert(x / n <= y / n) by(nonlinear_arith)
            requires 0 <= x <= y, n > 0;
        assert(y / n <= y) by(nonlinear_arith)
            requires 0 <= y, n > 0;
    }
}

/// Nothing works exactly when no probe reached its host, and then the
/// score is `u64::MAX`.
pub proof fn law_benchmark_nothing_works(tcp: Seq<(bool, Option<u64>)>, https: Seq<(bool, Option<u64>)>)
    ensures
        !benchmark_result(tcp, https).0 <==> (forall|i: int| 0 <= i < tcp.len() ==> !(#[trigger] tcp[i]).0)
            && (forall|i: int| 0 <= i < https.len() ==> !(#[trigger] https[i]).0),
        !benchmark_result(tcp, https).0 ==> benchmark_result(tcp, https).1 == u64::MAX,
{
    lemma_none_reached(tcp);
    lemma_none_reached(https);
    lemma_counts_bounded(tcp);
    lemma_counts_bounded(https);
}

proof fn lemma_none_reached(ps: Seq<(bool, Option<u64>)>)
    ensures
        reachable_count(ps) == 0 <==> forall|i: int| 0 <= i < ps.len() ==> !(#[trigger] ps[i]).0,
    decreases ps.len(),
{
    if ps.len() > 0 {
        let q = ps.drop_last();
        lemma_none_reached(q);
        lemma_counts_bounded(q);
        if reachable_count(ps) == 0 {
            assert forall|i: int| 0 <= i < ps.len() implies !(#[trigger] ps[i]).0 by {
                if i < ps.len() - 1 {
                    assert(q[i] == ps[i]);
                }
            }
        }
        if forall|i: int| 0 <= i < ps.len() ==> !(#[trigger] ps[i]).0 {
            assert forall|i: int| 0 <= i < q.len() implies !(#[trigger] q[i]).0 by {
                assert(q[i] == ps[i]);
            }
            assert(!ps[ps.len() - 1].0);
        }
    }
}


/// How many rounds of TCP checks the benchmark runs.
pub const TCP_ROUNDS: usize = 2;

/// The Telegram servers that the benchmark's TCP checks connect to.
pub open spec fn tcp_targets_view() -> Seq<(Seq<char>, u16)> {
    seq![
        ("149.154.167.51"@, 443u16),
        ("149.154.175.50"@, 443u16),
        ("149.154.167.91"@, 443u16),
        ("91.108.56.100"@, 443u16),
    ]
}

/// The benchmark probes Telegram itself: every TCP target is port 443 of an
/// address in Telegram's subnets (DC2, DC1, DC2 and DC5, in order).
pub proof fn law_benchmark_targets_are_telegram()
    ensures
        tcp_targets_view().len() == 4,
        forall|i: int| 0 <= i < 4 ==> (#[trigger] tcp_targets_view()[i]).1 == 443,
        crate::telegram::dc_of_text(tcp_targets_view()[0].0) == Some(2u8),
        crate::telegram::dc_of_text(tcp_targets_view()[1].0) == Some(1u8),
        crate::telegram::dc_of_text(tcp_targets_view()[2].0) == Some(2u8),
        crate::telegram::dc_of_text(tcp_targets_view()[3].0) == Some(5u8),
{
    reveal_strlit("149.154.167.51");
    reveal_strlit("149.154.175.50");
    reveal_strlit("149.154.167.91");
    reveal_strlit("91.108.56.100");
    reveal_with_fuel(decimal, 4);
    let a = seq![149u8, 154u8, 167u8, 51u8];
    let b = seq![149u8, 154u8, 175u8, 50u8];
    let c = seq![149u8, 154u8, 167u8, 91u8];
    let d = seq![91u8, 108u8, 56u8, 100u8];
    assert(crate::ipv4::ipv4_text(a) =~= "149.154.167.51"@);
    assert(crate::ipv4::ipv4_text(b) =~= "149.154.175.50"@);
    assert(crate::ipv4::ipv4_text(c) =~= "149.154.167.91"@);
    assert(crate::ipv4::ipv4_text(d) =~= "91.108.56.100"@);
    crate::telegram::law_text_names_address_dc(a);
    crate::telegram::law_text_names_address_dc(b);
    crate::telegram::law_text_names_address_dc(c);
    crate::telegram::law_text_names_address_dc(d);
}

/// The Telegram servers that the benchmark's TCP checks connect to, in order.
pub fn benchmark_tcp_targets() -> (v: Vec<(String, u16)>)
    ensures
        v@.map_values(|t: (String, u16)| (t.0@, t.1)) == tcp_targets_view(),
{
    let v = vec![
        (String::from_str("149.154.167.51"), 443u16),
        (String::from_str("149.154.175.50"), 443u16),
        (String::from_str("149.154.167.91"), 443u16),
        (String::from_str("91.108.56.100"), 443u16),
    ];
    assert(v@.map_values(|t: (String, u16)| (t.0@, t.1)) =~= tcp_targets_view());
    v
}

/// The sites that the benchmark's HTTPS checks request.
pub open spec fn https_urls_view() -> Seq<Seq<char>> {
    seq!["https://web.telegram.org"@, "https://t.me"@]
}

/// The sites that the benchmark's HTTPS checks request, in order.
pub fn benchmark_https_urls() -> (v: Vec<String>)
    ensures
        v@.map_values(|u: String| u@) == https_urls_view(),
{
    let v = vec![String::from_str("https://web.telegram.org"), String::from_str("https://t.me")];
    assert(v@.map_values(|u: String| u@) =~= https_urls_view());
    v
}

} // verus!
