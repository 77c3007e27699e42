//! Dotted-quad IPv4 addresses: the text `std` accepts and writes for them.
use vstd::prelude::*;
use crate::text::{
    all_digits, canonical_digits, chars_of, decimal, digits_value, is_digit, is_digit_char,
    lemma_canonical_is_decimal, lemma_decimal, lemma_maximal_runs_agree, push_char, push_decimal,
};

verus! {

/// The dotted-quad text of four octets, each written in decimal without
/// leading zeros. This is the only text that parses to those octets.
pub open spec fn ipv4_text(o: Seq<u8>) -> Seq<char> {
    decimal(o[0] as nat) + seq!['.'] + decimal(o[1] as nat) + seq!['.'] + decimal(o[2] as nat)
        + seq!['.'] + decimal(o[3] as nat)
}

/// Where group `k` of the dotted-quad text of `o` starts.
pub open spec fn group_start(o: Seq<u8>, k: int) -> int
    decreases k,
{
    if k <= 0 {
        0
    } else {
        group_start(o, k - 1) + decimal(o[k - 1] as nat).len() + 1
    }
}

/// Where group `k` of the dotted-quad text of `o` ends.
pub open spec fn group_end(o: Seq<u8>, k: int) -> int {
    group_start(o, k) + decimal(o[k] as nat).len()
}

/// The layout of the dotted-quad text: each group at its place, a dot after
/// each of the first three, nothing after the last.
pub proof fn lemma_ipv4_text_layout(o: Seq<u8>)
    requires
        o.len() == 4,
    ensures
        forall|k: int|
            0 <= k < 4 ==> ipv4_text(o).subrange(group_start(o, k), #[trigger] group_end(o, k))
                == decimal(o[k] as nat),
        forall|k: int| 0 <= k < 3 ==> ipv4_text(o)[#[trigger] group_end(o, k)] == '.',
        forall|k: int| 0 <= k < 3 ==> group_start(o, k + 1) == #[trigger] group_end(o, k) + 1,
        ipv4_text(o).len() == group_end(o, 3),
        forall|k: int| 0 <= k < 4 ==> 0 <= group_start(o, k) < #[trigger] group_end(o, k),
{
    let t0 = decimal(o[0] as nat);
    let t1 = decimal(o[1] as nat);
    let t2 = decimal(o[2] as nat);
    let t3 = decimal(o[3] as nat);
    lemma_decimal(o[0] as nat);
    lemma_decimal(o[1] as nat);
    lemma_decimal(o[2] as nat);
    lemma_decimal(o[3] as nat);
    let s = ipv4_text(o);
    let q1: int = t0.len() as int + 1;
    let q2: int = q1 + t1.len() + 1;
    let q3: int = q2 + t2.len() + 1;
    assert(group_start(o, 0) == 0);
    assert(group_start(o, 1) == q1);
    assert(group_start(o, 2) == q2);
    assert(group_start(o, 3) == q3);
    assert(s.subrange(0, t0.len() as int) =~= t0);
    assert(s.subrange(q1, q1 + t1.len()) =~= t1);
    assert(s.subrange(q2, q2 + t2.len()) =~= t2);
    assert(s.subrange(q3, q3 + t3.len()) =~= t3);
    assert(s[t0.len() as int] == '.');
    assert(s[q1 + t1.len()] == '.');
    assert(s[q2 + t2.len()] == '.');
}

/// Reads one octet written in decimal at `start`: the longest run of digits
/// there must be a canonical rendering of a number up to 255.
fn read_octet(v: &Vec<char>, start: usize) -> (res: Option<(u8, usize)>)
    requires
        start <= v.len(),
    ensures
        res matches Some((o, e)) ==> {
            &&& start < e <= v.len()
            &&& v@.subrange(start as int, e as int) == decimal(o as nat)
            &&& (e == v.len() || !is_digit(v@[e as int]))
        },
        res is None ==> forall|o: u8, e: int|
            #![trigger v@.subrange(start as int, e), decimal(o as nat)]
            start < e <= v.len() && v@.subrange(start as int, e) == decimal(o as nat)
                ==> e < v.len() && is_digit(v@[e]),
{
    let mut j: usize = start;
    let mut val: u32 = 0;
    while j < v.len() && is_digit_char(v[j]) && j - start < 4
        invariant
            start <= j <= v.len(),
            j - start <= 4,
            all_digits(v@.subrange(start as int, j as int)),
            val == digits_value(v@.subrange(start as int, j as int)),
            j - start <= 1 ==> val < 10,
            j - start <= 2 ==> val < 100,
            j - start <= 3 ==> val < 1000,
            val < 10000,
        decreases v.len() - j,
    {
        let c = v[j];
        let d: u32 = (c as u32) - 48;
        proof {
            let t = v@.subrange(start as int, j + 1);
            assert(t.drop_last() =~= v@.subrange(start as int, j as int));
            assert(t.last() == c);
        }
        val = val * 10 + d;
        j = j + 1;
    }
    let count = j - start;
    let ghost run = v@.subrange(start as int, j as int);
    if count == 0 {
        proof {
            assert forall|o: u8, e: int|
                #![trigger v@.subrange(start as int, e), decimal(o as nat)]
                start < e <= v.len() && v@.subrange(start as int, e) == decimal(o as nat)
                implies e < v.len() && is_digit(v@[e]) by {
                lemma_decimal(o as nat);
                assert(v@.subrange(start as int, e)[0] == v@[start as int]);
            }
        }
        return None;
    }
    if count == 4 {
        proof {
            assert forall|o: u8, e: int|
                #![trigger v@.subrange(start as int, e), decimal(o as nat)]
                start < e <= v.len() && v@.subrange(start as int, e) == decimal(o as nat)
                implies e < v.len() && is_digit(v@[e]) by {
                lemma_decimal(o as nat);
                assert(run[e - start] == v@[e]);
            }
        }
        return None;
    }
    if (count > 1 && v[start] == '0') || val > 255 {
        proof {
            assert forall|o: u8, e: int|
                #![trigger v@.subrange(start as int, e), decimal(o as nat)]
                start < e <= v.len() && v@.subrange(start as int, e) == decimal(o as nat)
                implies e < v.len() && is_digit(v@[e]) by {
                lemma_decimal(o as nat);
                if e < j {
                    assert(run[e - start] == v@[e]);
                } else if e == j {
                    assert(run == decimal(o as nat));
                    assert(run[0] == v@[start as int]);
                } else {
                    assert(v@.subrange(start as int, e)[j - start] == v@[j as int]);
                }
            }
        }
        return None;
    }
    proof {
        assert(run[0] == v@[start as int]);
        assert(canonical_digits(run));
        lemma_canonical_is_decimal(run);
    }
    Some((val as u8, j))
}

/// Group `k` of the dotted-quad text of `o` stands at its place, and is
/// followed by a dot, or ends the text when it is the last group.
proof fn lemma_group_present(v: Seq<char>, o: Seq<u8>, k: int)
    requires
        o.len() == 4,
        ipv4_text(o) == v,
        0 <= k < 4,
    ensures
        0 <= group_start(o, k) < group_end(o, k) <= v.len(),
        v.subrange(group_start(o, k), group_end(o, k)) == decimal(o[k] as nat),
        k < 3 ==> group_end(o, k) < v.len() && v[group_end(o, k)] == '.' && group_start(o, k + 1)
            == group_end(o, k) + 1,
        k == 3 ==> group_end(o, k) == v.len(),
        k == 0 ==> group_start(o, k) == 0,
{
    lemma_ipv4_text_layout(o);
    assert(group_end(o, k) <= group_end(o, 3)) by {
        if k < 3 {
            assert(group_start(o, k + 1) == group_end(o, k) + 1);
            if k + 1 < 3 {
                assert(group_start(o, k + 2) == group_end(o, k + 1) + 1);
            }
        }
    }
}

/// A maximal run of digits read at the start of group `k` is that group.
proof fn lemma_group_read(v: Seq<char>, o: Seq<u8>, k: int, x: u8, e: int)
    requires
        o.len() == 4,
        ipv4_text(o) == v,
        0 <= k < 4,
        group_start(o, k) < e <= v.len(),
        v.subrange(group_start(o, k), e) == decimal(x as nat),
        e == v.len() || !is_digit(v[e]),
    ensures
        x == o[k],
        e == group_end(o, k),
{
    lemma_group_present(v, o, k);
    lemma_maximal_runs_agree(v, group_start(o, k), e, group_end(o, k), x as nat, o[k] as nat);
}

/// Parses dotted-quad text into its four octets, as `Ipv4Addr` parsing in
/// std does: four groups of decimal digits, each at most 255 and without
/// leading zeros, joined by dots, and nothing else.
pub fn parse_ipv4(s: &str) -> (res: Option<[u8; 4]>)
    ensures
        res matches Some(o) ==> ipv4_text(o@) == s@,
        res is None ==> forall|o: Seq<u8>| o.len() == 4 ==> #[trigger] ipv4_text(o) != s@,
        match res {
            Some(o) => parsed_ipv4(s@) == Some(o@),
            None => parsed_ipv4(s@) is None,
        },
{
    let res = parse_ipv4_chars(s);
    proof {
        if let Some(o) = res {
            assert(o@.len() == 4);
            let c = choose|c: Seq<u8>| c.len() == 4 && #[trigger] ipv4_text(c) == s@;
            lemma_ipv4_text_injective(o@, c);
        }
    }
    res
}

fn parse_ipv4_chars(s: &str) -> (res: Option<[u8; 4]>)
    ensures
        res matches Some(o) ==> ipv4_text(o@) == s@,
        res is None ==> forall|o: Seq<u8>| o.len() == 4 ==> #[trigger] ipv4_text(o) != s@,
{
    let v = chars_of(s);
    let len = v.len();
    let (o0, e0) = match read_octet(&v, 0) {
        None => {
            proof {
                assert forall|o: Seq<u8>| o.len() == 4 implies #[trigger] ipv4_text(o) != s@ by {
                    if ipv4_text(o) == s@ {
                        lemma_group_present(v@, o, 0);
                    }
                }
            }
            return None;
        },
        Some(p) => p,
    };
    assert forall|o: Seq<u8>| o.len() == 4 && #[trigger] ipv4_text(o) == s@ implies o0 == o[0] && e0
        == group_end(o, 0) by {
        lemma_group_present(v@, o, 0);
        lemma_group_read(v@, o, 0, o0, e0 as int);
    }
    if e0 >= len || v[e0] != '.' {
        proof {
            assert forall|o: Seq<u8>| o.len() == 4 implies #[trigger] ipv4_text(o) != s@ by {
                if ipv4_text(o) == s@ {
                    lemma_group_present(v@, o, 0);
                }
            }
        }
        return None;
    }
    let (o1, e1) = match read_octet(&v, e0 + 1) {
        None => {
            proof {
                assert forall|o: Seq<u8>| o.len() == 4 implies #[trigger] ipv4_text(o) != s@ by {
                    if ipv4_text(o) == s@ {
                        lemma_group_present(v@, o, 0);
                        lemma_group_present(v@, o, 1);
                    }
                }
            }
            return None;
        },
        Some(p) => p,
    };
    assert forall|o: Seq<u8>| o.len() == 4 && #[trigger] ipv4_text(o) == s@ implies o1 == o[1] && e1
        == group_end(o, 1) by {
        lemma_group_present(v@, o, 0);
        lemma_group_read(v@, o, 1, o1, e1 as int);
    }
    if e1 >= len || v[e1] != '.' {
        proof {
            assert forall|o: Seq<u8>| o.len() == 4 implies #[trigger] ipv4_text(o) != s@ by {
                if ipv4_text(o) == s@ {
                    lemma_group_present(v@, o, 1);
                }
            }
        }
        return None;
    }
    let (o2, e2) = match read_octet(&v, e1 + 1) {
        None => {
            proof {
                assert forall|o: Seq<u8>| o.len() == 4 implies #[trigger] ipv4_text(o) != s@ by {
                    if ipv4_text(o) == s@ {
                        lemma_group_present(v@, o, 1);
                        lemma_group_present(v@, o, 2);
                    }
                }
            }
            return None;
        },
        Some(p) => p,
    };
    assert forall|o: Seq<u8>| o.len() == 4 && #[trigger] ipv4_text(o) == s@ implies o2 == o[2] && e2
        == group_end(o, 2) by {
        lemma_group_present(v@, o, 1);
        lemma_group_read(v@, o, 2, o2, e2 as int);
    }
    if e2 >= len || v[e2] != '.' {
        proof {
            assert forall|o: Seq<u8>| o.len() == 4 implies #[trigger] ipv4_text(o) != s@ by {
                if ipv4_text(o) == s@ {
                    lemma_group_present(v@, o, 2);
                }
            }
        }
        return None;
    }
    let (o3, e3) = match read_octet(&v, e2 + 1) {
        None => {
            proof {
                assert forall|o: Seq<u8>| o.len() == 4 implies #[trigger] ipv4_text(o) != s@ by {
                    if ipv4_text(o) == s@ {
                        lemma_group_present(v@, o, 2);
                        lemma_group_present(v@, o, 3);
                    }
                }
            }
            return None;
        },
        Some(p) => p,
    };
    assert forall|o: Seq<u8>| o.len() == 4 && #[trigger] ipv4_text(o) == s@ implies o3 == o[3] && e3
        == group_end(o, 3) by {
        lemma_group_present(v@, o, 2);
        lemma_group_read(v@, o, 3, o3, e3 as int);
    }
    if e3 != len {
        proof {
            assert forall|o: Seq<u8>| o.len() == 4 implies #[trigger] ipv4_text(o) != s@ by {
                if ipv4_text(o) == s@ {
                    lemma_group_present(v@, o, 3);
                }
            }
        }
        return None;
    }
    let octets: [u8; 4] = [o0, o1, o2, o3];
    proof {
        let w = v@;
        let t = ipv4_text(octets@);
        assert(octets@[0] == o0 && octets@[1] == o1 && octets@[2] == o2 && octets@[3] == o3);
        assert(w =~= w.subrange(0, e0 as int) + seq!['.'] + w.subrange(e0 + 1, e1 as int) + seq!['.']
            + w.subrange(e1 + 1, e2 as int) + seq!['.'] + w.subrange(e2 + 1, e3 as int));
    }
    Some(octets)
}

/// Different octets have different dotted-quad texts.
pub proof fn lemma_ipv4_text_injective(a: Seq<u8>, b: Seq<u8>)
    requires
        a.len() == 4,
        b.len() == 4,
        ipv4_text(a) == ipv4_text(b),
    ensures
        a == b,
{
    let v = ipv4_text(a);
    lemma_group_present(v, a, 0);
    lemma_group_present(v, a, 1);
    lemma_group_present(v, a, 2);
    lemma_group_present(v, a, 3);
    lemma_group_read(v, b, 0, a[0], group_end(a, 0));
    lemma_group_read(v, b, 1, a[1], group_end(a, 1));
    lemma_group_read(v, b, 2, a[2], group_end(a, 2));
    lemma_group_read(v, b, 3, a[3], group_end(a, 3));
    assert(a =~= b);
}

/// The octets that a text spells in dotted-quad form, if it is such a text.
pub open spec fn parsed_ipv4(s: Seq<char>) -> Option<Seq<u8>> {
    if exists|o: Seq<u8>| o.len() == 4 && #[trigger] ipv4_text(o) == s {
        Some(choose|o: Seq<u8>| o.len() == 4 && #[trigger] ipv4_text(o) == s)
    } else {
        None
    }
}

/// Four octets are written as their decimal numbers, without leading zeros,
/// separated by dots.
pub proof fn law_ipv4_written_with_dots(o: Seq<u8>)
    requires
        o.len() == 4,
    ensures
        ipv4_text(o) == decimal(o[0] as nat) + seq!['.'] + decimal(o[1] as nat) + seq!['.'] + decimal(
            o[2] as nat,
        ) + seq!['.'] + decimal(o[3] as nat),
        forall|k: int| 0 <= k < 4 ==> canonical_digits(#[trigger] decimal(o[k] as nat)) && digits_value(
            decimal(o[k] as nat),
        ) == o[k],
{
    assert forall|k: int| 0 <= k < 4 implies canonical_digits(#[trigger] decimal(o[k] as nat))
        && digits_value(decimal(o[k] as nat)) == o[k] by {
        lemma_decimal(o[k] as nat);
    }
}

/// Reading back the dotted-quad text of four octets gives those octets.
pub proof fn law_ipv4_round_trip(o: Seq<u8>)
    requires
        o.len() == 4,
    ensures
        parsed_ipv4(ipv4_text(o)) == Some(o),
{
    let c = choose|c: Seq<u8>| c.len() == 4 && #[trigger] ipv4_text(c) == ipv4_text(o);
    lemma_ipv4_text_injective(o, c);
}

/// Text that reads as four octets is exactly their dotted-quad text.
pub proof fn law_ipv4_parse_canonical(s: Seq<char>)
    requires
        parsed_ipv4(s) is Some,
    ensures
        parsed_ipv4(s)->0.len() == 4,
        ipv4_text(parsed_ipv4(s)->0) == s,
{
}

/// Dotted-quad text holds only digits and dots.
pub proof fn lemma_ipv4_text_chars(o: Seq<u8>, k: int)
    requires
        o.len() == 4,
        0 <= k < ipv4_text(o).len(),
    ensures
        is_digit(ipv4_text(o)[k]) || ipv4_text(o)[k] == '.',
{
    let v = ipv4_text(o);
    lemma_group_present(v, o, 0);
    lemma_group_present(v, o, 1);
    lemma_group_present(v, o, 2);
    lemma_group_present(v, o, 3);
    lemma_decimal(o[0] as nat);
    lemma_decimal(o[1] as nat);
    lemma_decimal(o[2] as nat);
    lemma_decimal(o[3] as nat);
    let mut g: int = 0;
    if k < group_end(o, 0) {
        g = 0;
    } else if k < group_end(o, 1) {
        g = 1;
    } else if k < group_end(o, 2) {
        g = 2;
    } else {
        g = 3;
    }
    if k >= group_start(o, g) {
        assert(v.subrange(group_start(o, g), group_end(o, g))[k - group_start(o, g)] == v[k]);
    }
}

/// Writes four octets as dotted-quad text.
pub fn format_ipv4(o: [u8; 4]) -> (s: String)
    ensures
        s@ == ipv4_text(o@),
{
    let mut s = String::new();
    push_decimal(&mut s, o[0] as u64);
    push_char(&mut s, '.');
    push_decimal(&mut s, o[1] as u64);
    push_char(&mut s, '.');
    push_decimal(&mut s, o[2] as u64);
    push_char(&mut s, '.');
    push_decimal(&mut s, o[3] as u64);
    s
}

} // verus!
