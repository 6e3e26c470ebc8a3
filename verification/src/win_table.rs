//! The text of a win probability table: comment lines, then the
//! probabilities in square brackets, each followed by a comma.
use vstd::prelude::*;

use crate::look_up::ALL_SORTED_HANDS_LEN;
use crate::probability::{EvalCount, Probability};

verus! {

/// `n` in decimal, without leading zeros, as ASCII bytes.
pub open spec fn decimal_bytes(n: u8) -> Seq<u8> {
    if n < 10 {
        seq![(48 + n) as u8]
    } else if n < 100 {
        seq![(48 + n / 10) as u8, (48 + n % 10) as u8]
    } else {
        seq![(48 + n / 100) as u8, (48 + (n / 10) % 10) as u8, (48 + n % 10) as u8]
    }
}

/// Each probability in decimal, followed by a comma.
pub open spec fn entries_text(ps: Seq<Probability>) -> Seq<u8>
    decreases ps.len(),
{
    if ps.len() == 0 {
        Seq::empty()
    } else {
        decimal_bytes(ps[0]) + seq![44u8] + entries_text(ps.drop_first())
    }
}

/// The probabilities as a list in square brackets.
pub open spec fn table_text(ps: Seq<Probability>) -> Seq<u8> {
    seq![91u8] + entries_text(ps) + seq![93u8]
}

/// Whether `text` is made of whole comment lines, each starting with `//` and
/// ending with its newline.
pub open spec fn comment_lines(text: Seq<u8>) -> bool {
    text.len() == 0 || {
        &&& text.len() >= 3
        &&& text[0] == 47 && text[1] == 47
        &&& text.last() == 10
        &&& forall|i: int|
            0 <= i < text.len() - 1 && #[trigger] text[i] == 10 ==> i + 2 < text.len() && text[i + 1] == 47
                && text[i + 2] == 47
    }
}

/// Whether `text` holds table `ps` after `k` bytes of comment lines, and
/// `tail`, nothing or a newline, after it.
pub open spec fn table_at(text: Seq<u8>, ps: Seq<Probability>, k: int, tail: Seq<u8>) -> bool {
    &&& 0 <= k <= text.len()
    &&& comment_lines(text.subrange(0, k))
    &&& (tail == Seq::<u8>::empty() || tail == seq![10u8])
    &&& text.subrange(k, text.len() as int) == table_text(ps) + tail
}

/// Whether `text` is the text of table `ps`: comment lines, the list, and at
/// most a newline after it.
pub open spec fn is_table_file(text: Seq<u8>, ps: Seq<Probability>) -> bool {
    exists|k: int, tail: Seq<u8>| table_at(text, ps, k, tail)
}

/// A list's text, read back as a table, gives the list: it is the text of
/// that table.
pub proof fn lemma_table_text_is_table_file(ps: Seq<Probability>)
    ensures
        is_table_file(table_text(ps), ps),
{
    let text = table_text(ps);
    assert(text.subrange(0, 0) =~= Seq::<u8>::empty());
    assert(text.subrange(0, text.len() as int) =~= table_text(ps) + Seq::<u8>::empty());
    assert(table_at(text, ps, 0, Seq::<u8>::empty()));
}

proof fn lemma_entries_push(ps: Seq<Probability>, n: Probability)
    ensures
        entries_text(ps.push(n)) == entries_text(ps) + decimal_bytes(n) + seq![44u8],
    decreases ps.len(),
{
    if ps.len() == 0 {
        assert(ps.push(n).drop_first().len() == 0);
        assert(entries_text(ps.push(n).drop_first()) == Seq::<u8>::empty());
        assert(entries_text(ps) == Seq::<u8>::empty());
        assert(entries_text(ps.push(n)) =~= entries_text(ps) + decimal_bytes(n) + seq![44u8]);
    } else {
        lemma_entries_push(ps.drop_first(), n);
        assert(ps.push(n).drop_first() =~= ps.drop_first().push(n));
        assert(entries_text(ps.push(n)) =~= entries_text(ps) + decimal_bytes(n) + seq![44u8]);
    }
}

/// Whether `text` holds `n` in decimal and a comma from `pos` on.
pub open spec fn entry_at(text: Seq<u8>, pos: int, n: u8) -> bool {
    &&& pos + decimal_bytes(n).len() + 1 <= text.len()
    &&& text.subrange(pos, pos + decimal_bytes(n).len() + 1) == decimal_bytes(n) + seq![44u8]
}

/// Reads one probability and its comma from `pos` on: the number and how many
/// bytes it took, where they are there.
#[verifier::rlimit(60)]
fn read_entry(text: &[u8], pos: usize) -> (entry: Option<(Probability, usize)>)
    requires
        pos < text@.len(),
    ensures
        entry matches Some((n, used)) ==> used == decimal_bytes(n).len() + 1 && entry_at(
            text@,
            pos as int,
            n,
        ),
        forall|n: u8| #[trigger] entry_at(text@, pos as int, n) ==> entry == Some(
            (n, (decimal_bytes(n).len() + 1) as usize),
        ),
{
    let len = text.len();
    let d0 = text[pos];
    if d0 < 48 || d0 > 57 {
        proof {
            assert forall|n: u8| #[trigger] entry_at(text@, pos as int, n) implies false by {
                assert(text@[pos as int] == (decimal_bytes(n) + seq![44u8])[0]);
            }
        }
        return None;
    }
    if pos + 1 >= len {
        proof {
            assert forall|n: u8| #[trigger] entry_at(text@, pos as int, n) implies false by {}
        }
        return None;
    }
    let a = d0 - 48;
    let c1 = text[pos + 1];
    if c1 == 44 {
        let entry = Some((a, 2));
        proof {
            assert(text@.subrange(pos as int, pos + 2) =~= decimal_bytes(a) + seq![44u8]);
            assert forall|n: u8| #[trigger] entry_at(text@, pos as int, n) implies entry == Some(
                (n, (decimal_bytes(n).len() + 1) as usize),
            ) by {
                let s = text@.subrange(pos as int, pos + decimal_bytes(n).len() + 1);
                assert(s[0] == text@[pos as int]);
                assert(s[1] == text@[pos + 1]);
                if n >= 10 {
                    assert(s[1] == decimal_bytes(n)[1]);
                }
                assert(s[0] == decimal_bytes(n)[0]);
            }
        }
        return entry;
    }
    if c1 < 48 || c1 > 57 || a == 0 || pos + 2 >= len {
        proof {
            assert forall|n: u8| #[trigger] entry_at(text@, pos as int, n) implies false by {
                let s = text@.subrange(pos as int, pos + decimal_bytes(n).len() + 1);
                assert(s[0] == text@[pos as int]);
                assert(s[1] == text@[pos + 1]);
                assert(s[0] == decimal_bytes(n)[0]);
                if n < 10 {
                    assert(s[1] == 44u8);
                } else {
                    assert(s[1] == decimal_bytes(n)[1]);
                }
            }
        }
        return None;
    }
    let b = c1 - 48;
    let c2 = text[pos + 2];
    if c2 == 44 {
        let n2 = 10 * a + b;
        let entry = Some((n2, 3));
        proof {
            assert(text@.subrange(pos as int, pos + 3) =~= decimal_bytes(n2) + seq![44u8]);
            assert forall|n: u8| #[trigger] entry_at(text@, pos as int, n) implies entry == Some(
                (n, (decimal_bytes(n).len() + 1) as usize),
            ) by {
                let s = text@.subrange(pos as int, pos + decimal_bytes(n).len() + 1);
                assert(s[0] == text@[pos as int]);
                assert(s[1] == text@[pos + 1]);
                assert(s[0] == decimal_bytes(n)[0]);
                if n < 10 {
                    assert(s[1] == 44u8);
                } else {
                    assert(s[1] == decimal_bytes(n)[1]);
                    assert(s[2] == text@[pos + 2]);
                    if n >= 100 {
                        assert(s[2] == decimal_bytes(n)[2]);
                    }
                }
            }
        }
        return entry;
    }
    if c2 < 48 || c2 > 57 || pos + 3 >= len || text[pos + 3] != 44 || a > 2 || (a == 2 && (b > 5 || (b
        == 5 && c2 > 53))) {
        proof {
            assert forall|n: u8| #[trigger] entry_at(text@, pos as int, n) implies false by {
                let s = text@.subrange(pos as int, pos + decimal_bytes(n).len() + 1);
                assert(s[0] == text@[pos as int]);
                assert(s[1] == text@[pos + 1]);
                assert(s[0] == decimal_bytes(n)[0]);
                if n < 10 {
                    assert(s[1] == 44u8);
                } else {
                    assert(s[1] == decimal_bytes(n)[1]);
                    assert(s[2] == text@[pos + 2]);
                    if n < 100 {
                        assert(s[2] == 44u8);
                    } else {
                        assert(s[2] == decimal_bytes(n)[2]);
                        assert(s[3] == text@[pos + 3]);
                        assert(s[3] == 44u8);
                    }
                }
            }
        }
        return None;
    }
    let c = c2 - 48;
    let n3 = 100 * a + 10 * b + c;
    let entry = Some((n3, 4));
    proof {
        assert(text@.subrange(pos as int, pos + 4) =~= decimal_bytes(n3) + seq![44u8]);
        assert forall|n: u8| #[trigger] entry_at(text@, pos as int, n) implies entry == Some(
            (n, (decimal_bytes(n).len() + 1) as usize),
        ) by {
            let s = text@.subrange(pos as int, pos + decimal_bytes(n).len() + 1);
            assert(s[0] == text@[pos as int]);
            assert(s[1] == text@[pos + 1]);
            assert(s[0] == decimal_bytes(n)[0]);
            if n < 10 {
                assert(s[1] == 44u8);
            } else {
                assert(s[1] == decimal_bytes(n)[1]);
                assert(s[2] == text@[pos + 2]);
                if n < 100 {
                    assert(s[2] == 44u8);
                } else {
                    assert(s[2] == decimal_bytes(n)[2]);
                }
            }
        }
    }
    entry
}

/// Where a table is there after `k` bytes, every comment line before it
/// starts with two slashes and ends within those bytes.
proof fn lemma_comment_line_within(text: Seq<u8>, q: Seq<Probability>, k: int, t: Seq<u8>, pos: int)
    requires
        table_at(text, q, k, t),
        0 <= pos < k,
        pos == 0 || text[pos - 1] == 10,
    ensures
        text[pos] == 47,
        pos + 2 < k,
        text[pos + 1] == 47,
        text[k - 1] == 10,
{
    let c = text.subrange(0, k);
    assert(c[k - 1] == text[k - 1]);
    if pos == 0 {
        assert(c[0] == text[0] && c[1] == text[1]);
    } else {
        assert(c[pos - 1] == 10);
        assert(c[pos] == text[pos] && c[pos + 1] == text[pos + 1]);
    }
}

/// A comment line after whole comment lines gives whole comment lines.
proof fn lemma_comment_lines_extend(text: Seq<u8>, pos: int, end: int)
    requires
        0 <= pos,
        pos + 2 <= end < text.len(),
        comment_lines(text.subrange(0, pos)),
        pos > 0 ==> text[pos - 1] == 10,
        text[pos] == 47,
        text[pos + 1] == 47,
        forall|i: int| pos + 2 <= i < end ==> text[i] != 10,
        text[end] == 10,
    ensures
        comment_lines(text.subrange(0, end + 1)),
{
    let before = text.subrange(0, pos);
    let c = text.subrange(0, end + 1);
    assert forall|i: int| 0 <= i < c.len() - 1 && #[trigger] c[i] == 10 implies i + 2 < c.len() && c[i
        + 1] == 47 && c[i + 2] == 47 by {
        if i < pos - 1 {
            assert(before[i] == c[i]);
            assert(before[i + 1] == c[i + 1] && before[i + 2] == c[i + 2]);
        } else if i == pos - 1 {
        } else {
            assert(c[i] == text[i]);
        }
    }
}

/// What the rest of the text says, where it is the list from entry `m` of `q`
/// on, the closing bracket and `t`.
proof fn lemma_entry_step(text: Seq<u8>, pos: int, q: Seq<Probability>, m: int, t: Seq<u8>)
    requires
        0 <= pos <= text.len(),
        0 <= m <= q.len(),
        text.subrange(pos, text.len() as int) == entries_text(q.subrange(m, q.len() as int)) + seq![93u8]
            + t,
    ensures
        m < q.len() <==> (pos < text.len() && text[pos] != 93),
        m < q.len() ==> entry_at(text, pos, q[m]) && text.subrange(
            pos + decimal_bytes(q[m]).len() + 1,
            text.len() as int,
        ) == entries_text(q.subrange(m + 1, q.len() as int)) + seq![93u8] + t,
{
    let r = q.subrange(m, q.len() as int);
    let rest = text.subrange(pos, text.len() as int);
    if m == q.len() {
        assert(r.len() == 0);
        assert(entries_text(r) == Seq::<u8>::empty());
        assert(rest =~= seq![93u8] + t);
        assert(rest[0] == 93u8);
        assert(rest.len() >= 1);
        assert(pos < text.len());
        assert(text[pos] == rest[0]);
    } else {
        let d = decimal_bytes(q[m]);
        let l = d.len() as int;
        assert(r.drop_first() =~= q.subrange(m + 1, q.len() as int));
        assert(r[0] == q[m]);
        let after = entries_text(q.subrange(m + 1, q.len() as int)) + seq![93u8] + t;
        assert(rest =~= d + seq![44u8] + after);
        assert(text[pos] == rest[0]);
        assert(48 <= d[0] <= 57);
        assert(text.subrange(pos, pos + l + 1) =~= rest.subrange(0, l + 1));
        assert(rest.subrange(0, l + 1) =~= d + seq![44u8]);
        assert(text.subrange(pos + l + 1, text.len() as int) =~= rest.subrange(l + 1, rest.len() as int));
        assert(rest.subrange(l + 1, rest.len() as int) =~= after);
    }
}

/// Reads a win probability table: comment lines, then the list, then at most
/// a newline. `None` exactly where the text is no such table.
pub fn parse_win_table(text: &[u8]) -> (table: Option<Vec<Probability>>)
    ensures
        table matches Some(ps) ==> is_table_file(text@, ps@),
        forall|ps: Seq<Probability>| #[trigger]
            is_table_file(text@, ps) ==> (table matches Some(v) && v@ == ps),
{
    let len = text.len();
    let mut pos: usize = 0;
    assert(text@.subrange(0, 0) =~= Seq::<u8>::empty());
    while pos < len && text[pos] == 47
        invariant
            len == text@.len(),
            pos <= len,
            comment_lines(text@.subrange(0, pos as int)),
            pos > 0 ==> text@[pos - 1] == 10,
            forall|q: Seq<Probability>, k: int, t: Seq<u8>| #[trigger]
                table_at(text@, q, k, t) ==> pos <= k,
        decreases len - pos,
    {
        proof {
            assert forall|q: Seq<Probability>, k: int, t: Seq<u8>| #[trigger]
                table_at(text@, q, k, t) implies pos < k by {
                if pos == k {
                    assert(text@.subrange(k, len as int)[0] == text@[k]);
                    assert((table_text(q) + t)[0] == 91u8);
                }
            }
        }
        if pos + 1 >= len || text[pos + 1] != 47 {
            proof {
                assert forall|q: Seq<Probability>| #[trigger] is_table_file(text@, q) implies false by {
                    let (k, t) = choose|k: int, t: Seq<u8>| table_at(text@, q, k, t);
                    lemma_comment_line_within(text@, q, k, t, pos as int);
                }
            }
            return None;
        }
        let mut end: usize = pos + 2;
        while end < len && text[end] != 10
            invariant
                len == text@.len(),
                pos + 2 <= end <= len,
                forall|i: int| pos + 2 <= i < end ==> text@[i] != 10,
            decreases len - end,
        {
            end += 1;
        }
        proof {
            assert forall|q: Seq<Probability>, k: int, t: Seq<u8>| #[trigger]
                table_at(text@, q, k, t) implies end + 1 <= k by {
                lemma_comment_line_within(text@, q, k, t, pos as int);
            }
        }
        if end >= len {
            proof {
                assert forall|q: Seq<Probability>| #[trigger] is_table_file(text@, q) implies false by {
                    let (k, t) = choose|k: int, t: Seq<u8>| table_at(text@, q, k, t);
                    assert(table_at(text@, q, k, t));
                }
            }
            return None;
        }
        proof {
            lemma_comment_lines_extend(text@, pos as int, end as int);
        }
        pos = end + 1;
    }
    proof {
        assert forall|q: Seq<Probability>, k: int, t: Seq<u8>| #[trigger]
            table_at(text@, q, k, t) implies k == pos by {
            if pos < k {
                lemma_comment_line_within(text@, q, k, t, pos as int);
            }
        }
    }
    if pos >= len || text[pos] != 91 {
        proof {
            assert forall|q: Seq<Probability>| #[trigger] is_table_file(text@, q) implies false by {
                let (k, t) = choose|k: int, t: Seq<u8>| table_at(text@, q, k, t);
                assert(k == pos);
                assert(text@.subrange(k, len as int)[0] == text@[k]);
                assert((table_text(q) + t)[0] == 91u8);
            }
        }
        return None;
    }
    let ghost k0 = pos as int;
    pos += 1;
    let mut ps: Vec<Probability> = Vec::new();
    proof {
        assert(text@.subrange(k0 + 1, pos as int) =~= entries_text(ps@));
        assert forall|q: Seq<Probability>, k: int, t: Seq<u8>| #[trigger]
            table_at(text@, q, k, t) implies k == k0 && ps@.len() <= q.len() && ps@ == q.subrange(
            0,
            ps@.len() as int,
        ) && text@.subrange(pos as int, len as int) == entries_text(
            q.subrange(ps@.len() as int, q.len() as int),
        ) + seq![93u8] + t by {
            assert(q.subrange(0, q.len() as int) =~= q);
            assert(q.subrange(0, 0) =~= ps@);
            let whole = text@.subrange(k, len as int);
            assert(text@.subrange(pos as int, len as int) =~= whole.subrange(1, whole.len() as int));
            assert(whole.subrange(1, whole.len() as int) =~= entries_text(q) + seq![93u8] + t);
        }
    }
    while pos < len && text[pos] != 93
        invariant
            len == text@.len(),
            0 <= k0 < pos <= len,
            comment_lines(text@.subrange(0, k0)),
            text@[k0] == 91,
            text@.subrange(k0 + 1, pos as int) == entries_text(ps@),
            forall|q: Seq<Probability>, k: int, t: Seq<u8>| #[trigger]
                table_at(text@, q, k, t) ==> k == k0 && ps@.len() <= q.len() && ps@ == q.subrange(
                    0,
                    ps@.len() as int,
                ) && text@.subrange(pos as int, len as int) == entries_text(
                    q.subrange(ps@.len() as int, q.len() as int),
                ) + seq![93u8] + t,
        decreases len - pos,
    {
        match read_entry(text, pos) {
            None => {
                proof {
                    assert forall|q: Seq<Probability>| #[trigger] is_table_file(text@, q) implies false by {
                        let (k, t) = choose|k: int, t: Seq<u8>| table_at(text@, q, k, t);
                        lemma_entry_step(text@, pos as int, q, ps@.len() as int, t);
                    }
                }
                return None;
            },
            Some((n, used)) => {
                let ghost before = ps@;
                let ghost old_pos = pos as int;
                proof {
                    assert forall|q: Seq<Probability>, k: int, t: Seq<u8>| #[trigger]
                        table_at(text@, q, k, t) implies q.len() > before.len() && q[before.len() as int]
                        == n && text@.subrange(old_pos + used, len as int) == entries_text(
                        q.subrange((before.len() + 1) as int, q.len() as int),
                    ) + seq![93u8] + t by {
                        lemma_entry_step(text@, pos as int, q, ps@.len() as int, t);
                    }
                    lemma_entries_push(before, n);
                    assert(old_pos + used <= len);
                    assert(text@.subrange(old_pos, old_pos + used) == decimal_bytes(n) + seq![44u8]);
                    assert(text@.subrange(k0 + 1, old_pos + used) =~= text@.subrange(k0 + 1, old_pos)
                        + text@.subrange(old_pos, old_pos + used));
                }
                ps.push(n);
                pos = pos + used;
                proof {
                    assert forall|q: Seq<Probability>, k: int, t: Seq<u8>| #[trigger]
                        table_at(text@, q, k, t) implies k == k0 && ps@.len() <= q.len() && ps@
                        == q.subrange(0, ps@.len() as int) && text@.subrange(pos as int, len as int)
                        == entries_text(q.subrange(ps@.len() as int, q.len() as int)) + seq![93u8]
                        + t by {
                        assert(before == q.subrange(0, before.len() as int));
                        assert(ps@ =~= q.subrange(0, ps@.len() as int));
                    }
                }
            },
        }
    }
    proof {
        assert forall|q: Seq<Probability>, k: int, t: Seq<u8>| #[trigger]
            table_at(text@, q, k, t) implies ps@.len() == q.len() && pos < len && text@.subrange(
            pos + 1,
            len as int,
        ) == t by {
            lemma_entry_step(text@, pos as int, q, ps@.len() as int, t);
            let rest = text@.subrange(pos as int, len as int);
            assert(q.subrange(ps@.len() as int, q.len() as int).len() == 0);
            assert(rest =~= seq![93u8] + t);
            assert(text@.subrange(pos + 1, len as int) =~= rest.subrange(1, rest.len() as int));
        }
    }
    if pos >= len {
        proof {
            assert forall|q: Seq<Probability>| #[trigger] is_table_file(text@, q) implies false by {
                let (k, t) = choose|k: int, t: Seq<u8>| table_at(text@, q, k, t);
                assert(table_at(text@, q, k, t));
            }
        }
        return None;
    }
    let after = pos + 1;
    if after == len || (after + 1 == len && text[after] == 10) {
        proof {
            let tail = text@.subrange(after as int, len as int);
            if after < len {
                assert(tail =~= seq![10u8]);
            } else {
                assert(tail =~= Seq::<u8>::empty());
            }
            assert(text@.subrange(k0, len as int) =~= seq![91u8] + text@.subrange(k0 + 1, pos as int)
                + seq![93u8] + tail);
            assert(table_at(text@, ps@, k0, tail));
            assert forall|q: Seq<Probability>| #[trigger] is_table_file(text@, q) implies ps@ == q by {
                let (k, t) = choose|k: int, t: Seq<u8>| table_at(text@, q, k, t);
                assert(table_at(text@, q, k, t));
                assert(ps@ =~= q);
            }
        }
        Some(ps)
    } else {
        proof {
            assert forall|q: Seq<Probability>| #[trigger] is_table_file(text@, q) implies false by {
                let (k, t) = choose|k: int, t: Seq<u8>| table_at(text@, q, k, t);
                assert(table_at(text@, q, k, t));
                if t.len() == 1 {
                    assert(text@[after as int] == text@.subrange(after as int, len as int)[0]);
                }
            }
        }
        None
    }
}

/// Appends `n` in decimal.
fn push_decimal(out: &mut Vec<u8>, n: u8)
    ensures
        final(out)@ == old(out)@ + decimal_bytes(n),
{
    if n < 10 {
        out.push(48 + n);
    } else if n < 100 {
        out.push(48 + n / 10);
        out.push(48 + n % 10);
    } else {
        out.push(48 + n / 100);
        out.push(48 + (n / 10) % 10);
        out.push(48 + n % 10);
    }
    assert(final(out)@ =~= old(out)@ + decimal_bytes(n));
}

/// The text of the list of `ps`: each in decimal and followed by a comma, all
/// in square brackets.
pub fn win_table_text(ps: &[Probability]) -> (text: Vec<u8>)
    ensures
        text@ == table_text(ps@),
{
    let mut text: Vec<u8> = Vec::new();
    text.push(91);
    let mut i: usize = 0;
    assert(ps@.subrange(0, 0).len() == 0);
    assert(text@ =~= seq![91u8] + entries_text(ps@.subrange(0, 0)));
    while i < ps.len()
        invariant
            i <= ps@.len(),
            text@ == seq![91u8] + entries_text(ps@.subrange(0, i as int)),
        decreases ps@.len() - i,
    {
        proof {
            assert(ps@.subrange(0, i + 1) =~= ps@.subrange(0, i as int).push(ps@[i as int]));
            lemma_entries_push(ps@.subrange(0, i as int), ps@[i as int]);
        }
        push_decimal(&mut text, ps[i]);
        text.push(44);
        i += 1;
        assert(text@ =~= seq![91u8] + entries_text(ps@.subrange(0, i as int)));
    }
    text.push(93);
    assert(ps@.subrange(0, ps@.len() as int) =~= ps@);
    assert(text@ =~= table_text(ps@));
    text
}

/// Counts that stand for a table of win probabilities: each probability as
/// that many wins out of 256.
pub fn counts_from_probabilities(table: &[Probability; 1326]) -> (counts: [EvalCount; 1326])
    ensures
        forall|i: int|
            0 <= i < ALL_SORTED_HANDS_LEN ==> #[trigger] counts@[i] == (EvalCount {
                win_count: table@[i] as u32,
                total: 256,
            }),
{
    let mut counts: [EvalCount; 1326] = [EvalCount { win_count: 0, total: 0 }; 1326];
    let mut i: usize = 0;
    while i < ALL_SORTED_HANDS_LEN
        invariant
            i <= ALL_SORTED_HANDS_LEN,
            forall|j: int|
                0 <= j < i ==> #[trigger] counts@[j] == (EvalCount {
                    win_count: table@[j] as u32,
                    total: 256,
                }),
        decreases ALL_SORTED_HANDS_LEN - i,
    {
        counts[i] = EvalCount { win_count: table[i] as u32, total: 256 };
        i += 1;
    }
    counts
}

} // verus!
