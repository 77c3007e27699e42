//! IPv6 addresses written the way `Ipv6Addr` displays them in std: the
//! canonical text of RFC 5952, with IPv4-mapped addresses as `::ffff:a.b.c.d`.
use vstd::prelude::*;
use crate::ipv4::{format_ipv4, ipv4_text};
use crate::text::{hex, push_char, push_hex};

verus! {

/// Segments in lower-case hexadecimal, joined by colons.
pub open spec fn hex_join(s: Seq<u16>) -> Seq<char>
    decreases s.len(),
{
    if s.len() == 0 {
        Seq::empty()
    } else if s.len() == 1 {
        hex(s[0] as nat)
    } else {
        hex_join(s.drop_last()) + seq![':'] + hex(s.last() as nat)
    }
}

/// `l` segments from `st` on are all zero.
pub open spec fn zero_run(s: Seq<u16>, st: int, l: int) -> bool {
    &&& l >= 1
    &&& 0 <= st
    &&& st + l <= s.len()
    &&& forall|i: int| st <= i < st + l ==> s[i] == 0
}

/// `(st, l)` is the longest run of zero segments, the first one when there
/// are several of that length; `(0, 0)` when no segment is zero.
pub open spec fn longest_zero_run(s: Seq<u16>, st: int, l: int) -> bool {
    ||| (l == 0 && st == 0 && forall|i: int| 0 <= i < s.len() ==> s[i] != 0)
    ||| (zero_run(s, st, l) && forall|st2: int, l2: int|
        #[trigger] zero_run(s, st2, l2) ==> l2 < l || (l2 == l && st <= st2))
}

/// The segments of an IPv4-mapped address: five zero segments, then `ffff`.
pub open spec fn is_ipv4_mapped(s: Seq<u16>) -> bool {
    s[0] == 0 && s[1] == 0 && s[2] == 0 && s[3] == 0 && s[4] == 0 && s[5] == 0xffff
}

/// The IPv4 address in the last two segments.
pub open spec fn mapped_octets(s: Seq<u16>) -> Seq<u8> {
    seq![(s[6] / 256) as u8, (s[6] % 256) as u8, (s[7] / 256) as u8, (s[7] % 256) as u8]
}

/// The canonical text of eight segments.
pub open spec fn ipv6_text(s: Seq<u16>) -> Seq<char> {
    if is_ipv4_mapped(s) {
        "::ffff:"@ + ipv4_text(mapped_octets(s))
    } else {
        let run = choose|r: (int, int)| longest_zero_run(s, r.0, r.1);
        if run.1 > 1 {
            hex_join(s.take(run.0)) + "::"@ + hex_join(s.skip(run.0 + run.1))
        } else {
            hex_join(s)
        }
    }
}

proof fn lemma_hex_join_colon(s: Seq<u16>)
    requires
        s.len() >= 2,
    ensures
        hex_join(s)[hex_join(s.drop_last()).len() as int] == ':',
        hex_join(s.drop_last()).len() < hex_join(s).len(),
{
}

/// The canonical text of eight segments always holds a colon.
pub proof fn lemma_ipv6_text_has_colon(s: Seq<u16>)
    requires
        s.len() == 8,
    ensures
        exists|k: int| 0 <= k < ipv6_text(s).len() && ipv6_text(s)[k] == ':',
{
    let t = ipv6_text(s);
    if is_ipv4_mapped(s) {
        reveal_strlit("::ffff:");
        assert(t[0] == ':');
    } else {
        let run = choose|r: (int, int)| longest_zero_run(s, r.0, r.1);
        if run.1 > 1 {
            reveal_strlit("::");
            let a = hex_join(s.take(run.0));
            assert(t[a.len() as int] == ':');
        } else {
            lemma_hex_join_colon(s);
            assert(t[hex_join(s.drop_last()).len() as int] == ':');
        }
    }
}

/// There is only one longest (and first) run of zero segments.
proof fn lemma_longest_zero_run_unique(s: Seq<u16>, a: int, la: int, b: int, lb: int)
    requires
        longest_zero_run(s, a, la),
        longest_zero_run(s, b, lb),
    ensures
        a == b && la == lb,
{
    if la == 0 && lb != 0 {
        assert(s[b] == 0);
    } else if lb == 0 && la != 0 {
        assert(s[a] == 0);
    } else if la != 0 && lb != 0 {
        assert(zero_run(s, a, la));
        assert(zero_run(s, b, lb));
    }
}

/// An address without a zero segment is written in full: its eight
/// segments in lower-case hexadecimal without leading zeros, joined by
/// colons.
pub proof fn law_ipv6_without_zeros(s: Seq<u16>)
    requires
        s.len() == 8,
        forall|i: int| 0 <= i < 8 ==> s[i] != 0,
    ensures
        ipv6_text(s) == hex(s[0] as nat) + seq![':'] + hex(s[1] as nat) + seq![':'] + hex(s[2] as nat)
            + seq![':'] + hex(s[3] as nat) + seq![':'] + hex(s[4] as nat) + seq![':'] + hex(
            s[5] as nat,
        ) + seq![':'] + hex(s[6] as nat) + seq![':'] + hex(s[7] as nat),
{
    assert(!is_ipv4_mapped(s));
    assert(longest_zero_run(s, (0int, 0int).0, (0int, 0int).1));
    let run = choose|r: (int, int)| longest_zero_run(s, r.0, r.1);
    lemma_longest_zero_run_unique(s, run.0, run.1, 0, 0);
    assert(s.take(1).drop_last() =~= Seq::<u16>::empty());
    assert(hex_join(s.take(1)) == hex(s[0] as nat));
    lemma_hex_join_step(s, 1);
    lemma_hex_join_step(s, 2);
    lemma_hex_join_step(s, 3);
    lemma_hex_join_step(s, 4);
    lemma_hex_join_step(s, 5);
    lemma_hex_join_step(s, 6);
    lemma_hex_join_step(s, 7);
    assert(s.take(8) =~= s);
}

proof fn lemma_hex_join_step(s: Seq<u16>, k: int)
    requires
        1 <= k < s.len(),
    ensures
        hex_join(s.take(k + 1)) == hex_join(s.take(k)) + seq![':'] + hex(s[k] as nat),
{
    assert(s.take(k + 1).drop_last() =~= s.take(k));
    assert(s.take(k + 1).last() == s[k]);
}

/// An IPv4-mapped address (five zero segments, then `ffff`) is written as
/// `::ffff:` followed by the dotted quad of its last four bytes.
pub proof fn law_ipv6_mapped(s: Seq<u16>)
    requires
        s.len() == 8,
        s[0] == 0 && s[1] == 0 && s[2] == 0 && s[3] == 0 && s[4] == 0 && s[5] == 0xffff,
    ensures
        ipv6_text(s) == "::ffff:"@ + ipv4_text(
            seq![(s[6] / 256) as u8, (s[6] % 256) as u8, (s[7] / 256) as u8, (s[7] % 256) as u8],
        ),
{
}

/// The longest run of two or more zero segments (the first, among runs of
/// that length) is written as `::`, with the segments before and after it
/// written out around it; an address that is not IPv4-mapped and has no
/// two zero segments in a row is written in full.
pub proof fn law_ipv6_compresses_longest_zero_run(s: Seq<u16>, st: int, l: int)
    requires
        s.len() == 8,
        !(s[0] == 0 && s[1] == 0 && s[2] == 0 && s[3] == 0 && s[4] == 0 && s[5] == 0xffff),
        0 <= st,
        st + l <= 8,
        l >= 1,
        forall|i: int| st <= i < st + l ==> s[i] == 0,
        forall|st2: int, l2: int| #[trigger] zero_run(s, st2, l2) ==> l2 < l || (l2 == l && st <= st2),
    ensures
        l >= 2 ==> ipv6_text(s) == hex_join(s.take(st)) + "::"@ + hex_join(s.skip(st + l)),
        l == 1 ==> ipv6_text(s) == hex_join(s),
{
    assert(zero_run(s, st, l));
    assert(longest_zero_run(s, (st, l).0, (st, l).1));
    let run = choose|r: (int, int)| longest_zero_run(s, r.0, r.1);
    lemma_longest_zero_run_unique(s, run.0, run.1, st, l);
}

/// Finds the longest run of zero segments, the first of that length.
fn find_longest_zero_run(seg: &[u16; 8]) -> (r: (usize, usize))
    ensures
        longest_zero_run(seg@, r.0 as int, r.1 as int),
{
    let ghost s = seg@;
    let mut best_start: usize = 0;
    let mut best_len: usize = 0;
    let mut cur_start: usize = 0;
    let mut cur_len: usize = 0;
    let mut i: usize = 0;
    while i < 8
        invariant
            s == seg@,
            s.len() == 8,
            i <= 8,
            cur_len <= i,
            cur_len > 0 ==> cur_start + cur_len == i,
            forall|j: int| i - cur_len <= j < i ==> s[j] == 0,
            i - cur_len > 0 ==> s[i - cur_len - 1] != 0,
            best_len <= i,
            best_len == 0 ==> best_start == 0 && forall|j: int| 0 <= j < i ==> s[j] != 0,
            best_len > 0 ==> zero_run(s, best_start as int, best_len as int) && best_start + best_len <= i,
            forall|st2: int, l2: int|
                #[trigger] zero_run(s, st2, l2) && st2 + l2 <= i ==> l2 < best_len || (l2 == best_len
                    && best_start <= st2),
        decreases 8 - i,
    {
        if seg[i] == 0 {
            if cur_len == 0 {
                cur_start = i;
            }
            cur_len = cur_len + 1;
            proof {
                assert forall|st2: int, l2: int|
                    #[trigger] zero_run(s, st2, l2) && st2 + l2 == i + 1 implies st2 >= cur_start && l2
                    <= cur_len by {
                    if st2 < cur_start {
                        assert(s[cur_start - 1] == 0);
                    }
                }
            }
            if cur_len > best_len {
                best_start = cur_start;
                best_len = cur_len;
            }
        } else {
            cur_len = 0;
            cur_start = 0;
            proof {
                assert forall|st2: int, l2: int|
                    #[trigger] zero_run(s, st2, l2) implies st2 + l2 != i + 1 by {
                    if st2 + l2 == i + 1 {
                        assert(s[i as int] == 0);
                    }
                }
            }
        }
        i = i + 1;
    }
    (best_start, best_len)
}

/// Appends the segments `from..to`, in hexadecimal, joined by colons.
fn push_hex_join(s: &mut String, v: &[u16; 8], from: usize, to: usize)
    requires
        from <= to <= 8,
    ensures
        final(s)@ == old(s)@ + hex_join(v@.subrange(from as int, to as int)),
{
    let ghost start = s@;
    let mut i: usize = from;
    assert(v@.subrange(from as int, from as int) =~= Seq::<u16>::empty());
    assert(start + hex_join(Seq::<u16>::empty()) =~= start);
    while i < to
        invariant
            from <= i <= to <= 8,
            s@ == start + hex_join(v@.subrange(from as int, i as int)),
        decreases to - i,
    {
        let ghost before = v@.subrange(from as int, i as int);
        let ghost after = v@.subrange(from as int, i + 1);
        assert(after.drop_last() =~= before);
        assert(after.last() == v@[i as int]);
        if i > from {
            push_char(s, ':');
        }
        push_hex(s, v[i]);
        proof {
            if i == from {
                assert(before.len() == 0);
                assert(after.len() == 1);
                assert(hex_join(after) == hex(v@[i as int] as nat));
                assert(s@ =~= start + hex_join(after));
            } else {
                assert(s@ =~= start + hex_join(after));
            }
        }
        i = i + 1;
    }
}

/// Writes eight segments as canonical IPv6 text.
pub fn format_ipv6(seg: [u16; 8]) -> (s: String)
    ensures
        s@ == ipv6_text(seg@),
{
    if seg[0] == 0 && seg[1] == 0 && seg[2] == 0 && seg[3] == 0 && seg[4] == 0 && seg[5] == 0xffff {
        let o: [u8; 4] = [
            (seg[6] / 256) as u8,
            (seg[6] % 256) as u8,
            (seg[7] / 256) as u8,
            (seg[7] % 256) as u8,
        ];
        assert(o@ =~= mapped_octets(seg@));
        let mut s = String::from_str("::ffff:");
        let tail = format_ipv4(o);
        s.append(tail.as_str());
        return s;
    }
    let (st, l) = find_longest_zero_run(&seg);
    proof {
        let run = choose|r: (int, int)| longest_zero_run(seg@, r.0, r.1);
        assert(longest_zero_run(seg@, (st as int, l as int).0, (st as int, l as int).1));
        lemma_longest_zero_run_unique(seg@, run.0, run.1, st as int, l as int);
    }
    let mut s = String::new();
    if l > 1 {
        push_hex_join(&mut s, &seg, 0, st);
        s.append("::");
        push_hex_join(&mut s, &seg, st + l, 8);
        assert(seg@.subrange(0, st as int) =~= seg@.take(st as int));
        assert(seg@.subrange((st + l) as int, 8) =~= seg@.skip((st + l) as int));
        assert(s@ =~= hex_join(seg@.take(st as int)) + "::"@ + hex_join(seg@.skip((st + l) as int)));
    } else {
        push_hex_join(&mut s, &seg, 0, 8);
        assert(seg@.subrange(0, 8) =~= seg@);
        assert(s@ =~= hex_join(seg@));
    }
    s
}

} // verus!
