//! What `parse_log` reads back: the text that `git log` prints for a list of
//! commits (with the log format of `crate::git::LOG_FORMAT`), and the law that
//! reading it gives those commits again.
use super::model::CommitView;
use super::parse::{commit_from, drop_empty_tail, nonempty_pieces, parse_log_spec, records_upto, refs_from_pieces, refs_of, words};
use crate::text::{
    all_digits, decimal, digits_value, in_class, is_digit, is_ws, parse_i64, split_when, trim, trim_end_when,
    trim_start_when, trim_when, CharClass,
};
use vstd::prelude::*;

verus! {

// ---------------------------------------------------------------------------
// The text of a log
// ---------------------------------------------------------------------------

/// `ps` joined with `sep` followed by `pad` between consecutive pieces.
pub open spec fn join(ps: Seq<Seq<char>>, sep: char, pad: Seq<char>) -> Seq<char>
    decreases ps.len(),
{
    if ps.len() == 0 {
        seq![]
    } else if ps.len() == 1 {
        ps[0]
    } else {
        join(ps.drop_last(), sep, pad) + seq![sep] + pad + ps.last()
    }
}

/// The `%d` decoration of a commit with `refs`: empty, or the refs in
/// parentheses, separated by a comma and a space.
pub open spec fn decoration(refs: Seq<Seq<char>>) -> Seq<char> {
    if refs.len() == 0 {
        seq![]
    } else {
        seq!['('] + join(refs, ',', seq![' ']) + seq![')']
    }
}

/// A timestamp as `%at` prints it.
pub open spec fn timestamp_text(t: i64) -> Seq<char> {
    if t < 0 {
        seq!['-'] + decimal((-t) as nat)
    } else {
        decimal(t as nat)
    }
}

/// The six fields of a commit's record; `lead` comes before the hash (the
/// line break between records).
pub open spec fn record_fields(c: CommitView, lead: Seq<char>) -> Seq<Seq<char>> {
    seq![
        lead + c.hash,
        join(c.parents, ' ', seq![]),
        decoration(c.refs),
        c.subject,
        c.author,
        timestamp_text(c.timestamp),
    ]
}

/// The fields of the records of `cs`, in order; `sep` comes between records.
pub open spec fn log_fields(cs: Seq<CommitView>, sep: Seq<char>) -> Seq<Seq<char>>
    decreases cs.len(),
{
    if cs.len() == 0 {
        seq![]
    } else {
        log_fields(cs.drop_last(), sep) + record_fields(
            cs.last(),
            if cs.len() == 1 {
                seq![]
            } else {
                sep
            },
        )
    }
}

/// Each field followed by a NUL.
pub open spec fn nul_terminated(fs: Seq<Seq<char>>) -> Seq<char>
    decreases fs.len(),
{
    if fs.len() == 0 {
        seq![]
    } else {
        nul_terminated(fs.drop_last()) + fs.last() + seq!['\0']
    }
}

/// The text `git log` prints for `cs` with the viewer's log format, with
/// `sep` between records.
pub open spec fn log_text(cs: Seq<CommitView>, sep: Seq<char>) -> Seq<char> {
    nul_terminated(log_fields(cs, sep))
}

// ---------------------------------------------------------------------------
// Splitting
// ---------------------------------------------------------------------------

pub open spec fn free_of(s: Seq<char>, k: CharClass) -> bool {
    forall|i: int| 0 <= i < s.len() ==> !in_class(k, #[trigger] s[i])
}

proof fn lemma_split_append_free(s: Seq<char>, x: Seq<char>, k: CharClass)
    requires
        free_of(x, k),
    ensures
        split_when(s + x, k) == split_when(s, k).update(
            split_when(s, k).len() - 1,
            split_when(s, k).last() + x,
        ),
        split_when(s, k).len() >= 1,
    decreases x.len(),
{
    lemma_split_nonempty(s, k);
    if x.len() == 0 {
        assert(s + x =~= s);
        assert(split_when(s, k).last() + x =~= split_when(s, k).last());
        assert(split_when(s, k).update(split_when(s, k).len() - 1, split_when(s, k).last()) =~= split_when(s, k));
    } else {
        let y = x.drop_last();
        assert(free_of(y, k));
        lemma_split_append_free(s, y, k);
        assert((s + x).drop_last() =~= s + y);
        assert((s + x).last() == x.last());
        let r = split_when(s + y, k);
        let base = split_when(s, k);
        assert(split_when(s + x, k) == r.update(r.len() - 1, r.last().push(x.last())));
        assert(r.last() == base.last() + y);
        assert((base.last() + y).push(x.last()) =~= base.last() + x);
        assert(split_when(s + x, k) =~= base.update(base.len() - 1, base.last() + x));
    }
}

proof fn lemma_split_nonempty(s: Seq<char>, k: CharClass)
    ensures
        split_when(s, k).len() >= 1,
    decreases s.len(),
{
    if s.len() > 0 {
        lemma_split_nonempty(s.drop_last(), k);
    }
}

proof fn lemma_split_append_sep(s: Seq<char>, c: char, k: CharClass)
    requires
        in_class(k, c),
    ensures
        split_when(s + seq![c], k) == split_when(s, k).push(seq![]),
{
    assert((s + seq![c]).drop_last() =~= s);
}

/// Splitting NUL-terminated fields gives the fields and an empty tail.
proof fn lemma_split_nul_terminated(fs: Seq<Seq<char>>)
    requires
        forall|i: int| 0 <= i < fs.len() ==> free_of(#[trigger] fs[i], CharClass::Nul),
    ensures
        split_when(nul_terminated(fs), CharClass::Nul) == fs.push(seq![]),
    decreases fs.len(),
{
    if fs.len() == 0 {
        assert(split_when(Seq::<char>::empty(), CharClass::Nul) =~= fs.push(seq![]));
    } else {
        let init = fs.drop_last();
        assert forall|i: int| 0 <= i < init.len() implies free_of(#[trigger] init[i], CharClass::Nul) by {
            assert(init[i] == fs[i]);
        }
        lemma_split_nul_terminated(init);
        let s = nul_terminated(init);
        assert(free_of(fs.last(), CharClass::Nul)) by {
            assert(fs.last() == fs[fs.len() - 1]);
        }
        lemma_split_append_free(s, fs.last(), CharClass::Nul);
        lemma_split_append_sep(s + fs.last(), '\0', CharClass::Nul);
        assert(nul_terminated(fs) == s + fs.last() + seq!['\0']);
        let base = init.push(seq![]);
        assert(base.update(base.len() - 1, base.last() + fs.last()) =~= fs);
    }
}

/// The pieces that splitting `join(ps, sep, pad)` at `sep` gives: the first
/// piece, then each later one behind `pad`.
pub open spec fn join_pieces(ps: Seq<Seq<char>>, pad: Seq<char>) -> Seq<Seq<char>>
    decreases ps.len(),
{
    if ps.len() <= 1 {
        ps
    } else {
        join_pieces(ps.drop_last(), pad).push(pad + ps.last())
    }
}

proof fn lemma_split_join(ps: Seq<Seq<char>>, sep: char, pad: Seq<char>, k: CharClass)
    requires
        ps.len() >= 1,
        in_class(k, sep),
        free_of(pad, k),
        forall|i: int| 0 <= i < ps.len() ==> free_of(#[trigger] ps[i], k),
    ensures
        split_when(join(ps, sep, pad), k) == join_pieces(ps, pad),
    decreases ps.len(),
{
    if ps.len() == 1 {
        lemma_split_append_free(seq![], ps[0], k);
        assert(Seq::<char>::empty() + ps[0] =~= ps[0]);
        assert(split_when(Seq::<char>::empty(), k) =~= seq![seq![]]);
        assert(seq![Seq::<char>::empty()].update(0, Seq::<char>::empty() + ps[0]) =~= ps);
    } else {
        let init = ps.drop_last();
        assert forall|i: int| 0 <= i < init.len() implies free_of(#[trigger] init[i], k) by {
            assert(init[i] == ps[i]);
        }
        lemma_split_join(init, sep, pad, k);
        let j = join(init, sep, pad);
        lemma_split_append_sep(j, sep, k);
        let x = pad + ps.last();
        assert(free_of(ps.last(), k)) by {
            assert(ps.last() == ps[ps.len() - 1]);
        }
        assert(free_of(x, k)) by {
            assert forall|i: int| 0 <= i < x.len() implies !in_class(k, #[trigger] x[i]) by {
                if i < pad.len() {
                    assert(x[i] == pad[i]);
                } else {
                    assert(x[i] == ps.last()[i - pad.len()]);
                }
            }
        }
        lemma_split_append_free(j + seq![sep], x, k);
        assert(join(ps, sep, pad) =~= (j + seq![sep]) + x);
        let base = join_pieces(init, pad).push(seq![]);
        assert(base.update(base.len() - 1, base.last() + x) =~= join_pieces(ps, pad));
    }
}

/// A joined list is free of a class when its pieces, the separator and the
/// padding are.
proof fn lemma_join_free(ps: Seq<Seq<char>>, sep: char, pad: Seq<char>, k: CharClass)
    requires
        !in_class(k, sep),
        free_of(pad, k),
        forall|i: int| 0 <= i < ps.len() ==> free_of(#[trigger] ps[i], k),
    ensures
        free_of(join(ps, sep, pad), k),
    decreases ps.len(),
{
    if ps.len() == 1 {
        assert(free_of(ps[0], k));
    } else if ps.len() > 1 {
        let init = ps.drop_last();
        assert forall|i: int| 0 <= i < init.len() implies free_of(#[trigger] init[i], k) by {
            assert(init[i] == ps[i]);
        }
        lemma_join_free(init, sep, pad, k);
        assert(free_of(ps[ps.len() - 1], k));
        let a = join(init, sep, pad);
        let j = join(ps, sep, pad);
        assert(j =~= a + seq![sep] + pad + ps.last());
        assert forall|i: int| 0 <= i < j.len() implies !in_class(k, #[trigger] j[i]) by {
            if i < a.len() {
                assert(j[i] == a[i]);
            } else if i == a.len() {
                assert(j[i] == sep);
            } else if i < a.len() + 1 + pad.len() {
                assert(j[i] == pad[i - a.len() - 1]);
            } else {
                assert(j[i] == ps.last()[i - a.len() - 1 - pad.len()]);
            }
        }
    }
}

/// The first and last characters of a joined list of non-empty pieces.
proof fn lemma_join_ends(ps: Seq<Seq<char>>, sep: char, pad: Seq<char>)
    requires
        ps.len() >= 1,
        forall|i: int| 0 <= i < ps.len() ==> (#[trigger] ps[i]).len() > 0,
    ensures
        join(ps, sep, pad).len() > 0,
        join(ps, sep, pad)[0] == ps[0][0],
        join(ps, sep, pad).last() == ps.last().last(),
    decreases ps.len(),
{
    assert(ps[0].len() > 0);
    assert(ps[ps.len() - 1].len() > 0);
    if ps.len() > 1 {
        let init = ps.drop_last();
        assert forall|i: int| 0 <= i < init.len() implies (#[trigger] init[i]).len() > 0 by {
            assert(init[i] == ps[i]);
        }
        lemma_join_ends(init, sep, pad);
        assert(init[0] == ps[0]);
    }
}

// ---------------------------------------------------------------------------
// Trimming
// ---------------------------------------------------------------------------

/// A string whose ends are outside the class is its own trim.
proof fn lemma_trim_when_id(s: Seq<char>, k: CharClass)
    requires
        s.len() > 0,
        !in_class(k, s[0]),
        !in_class(k, s.last()),
    ensures
        trim_when(s, k) == s,
{
}

/// Leading characters of the class make no difference to the trim.
proof fn lemma_trim_start_lead(p: Seq<char>, s: Seq<char>, k: CharClass)
    requires
        forall|i: int| 0 <= i < p.len() ==> in_class(k, #[trigger] p[i]),
    ensures
        trim_start_when(p + s, k) == trim_start_when(s, k),
    decreases p.len(),
{
    if p.len() > 0 {
        let q = p.drop_first();
        assert forall|i: int| 0 <= i < q.len() implies in_class(k, #[trigger] q[i]) by {
            assert(q[i] == p[i + 1]);
        }
        lemma_trim_start_lead(q, s, k);
        assert((p + s)[0] == p[0]);
        assert((p + s).drop_first() =~= q + s);
    } else {
        assert(p + s =~= s);
    }
}

proof fn lemma_trim_lead(p: Seq<char>, s: Seq<char>)
    requires
        forall|i: int| 0 <= i < p.len() ==> is_ws(#[trigger] p[i]),
    ensures
        trim(p + s) == trim(s),
{
    assert forall|i: int| 0 <= i < p.len() implies in_class(CharClass::Whitespace, #[trigger] p[i]) by {
        assert(is_ws(p[i]));
    }
    lemma_trim_start_lead(p, s, CharClass::Whitespace);
}

// ---------------------------------------------------------------------------
// Numbers
// ---------------------------------------------------------------------------

proof fn lemma_decimal_reads_back(n: nat)
    ensures
        decimal(n).len() > 0,
        all_digits(decimal(n)),
        digits_value(decimal(n)) == n,
    decreases n,
{
    let c = (((n % 10) + 0x30) as u32) as char;
    assert((c as u32) == (n % 10) + 0x30);
    if n < 10 {
        assert(decimal(n) =~= seq![c]);
        assert(decimal(n).drop_last() =~= Seq::<char>::empty());
        assert(digits_value(decimal(n)) == digits_value(Seq::<char>::empty()) * 10 + ((c as u32) - 0x30));
    } else {
        lemma_decimal_reads_back(n / 10);
        let d = decimal(n / 10);
        let s = decimal(n);
        assert(s.drop_last() =~= d);
        assert(s.last() == c);
        assert(digits_value(s) == digits_value(d) * 10 + ((c as u32) - 0x30));
        assert((n / 10) * 10 + n % 10 == n) by (nonlinear_arith);
        assert forall|i: int| 0 <= i < s.len() implies is_digit(#[trigger] s[i]) by {
            if i < d.len() {
                assert(s[i] == d[i]);
            }
        }
    }
}

proof fn lemma_timestamp_reads_back(t: i64)
    ensures
        timestamp_text(t).len() > 0,
        !is_ws(timestamp_text(t)[0]),
        !is_ws(timestamp_text(t).last()),
        free_of(timestamp_text(t), CharClass::Nul),
        parse_i64(trim(timestamp_text(t))) == Some(t),
{
    let s = timestamp_text(t);
    if t < 0 {
        let n = (-t) as nat;
        lemma_decimal_reads_back(n);
        assert(s.drop_first() =~= decimal(n));
        assert(s.last() == decimal(n).last());
        assert(is_digit(decimal(n)[decimal(n).len() - 1]));
    } else {
        lemma_decimal_reads_back(t as nat);
        assert(is_digit(s[0]));
        assert(is_digit(s[s.len() - 1]));
    }
    assert forall|i: int| 0 <= i < s.len() implies !in_class(CharClass::Nul, #[trigger] s[i]) by {
        if t < 0 && i > 0 {
            assert(s[i] == decimal((-t) as nat)[i - 1]);
        }
    }
    lemma_trim_when_id(s, CharClass::Whitespace);
}

// ---------------------------------------------------------------------------
// Fields
// ---------------------------------------------------------------------------

proof fn lemma_nonempty_pieces_id(ps: Seq<Seq<char>>)
    requires
        forall|i: int| 0 <= i < ps.len() ==> (#[trigger] ps[i]).len() > 0,
    ensures
        nonempty_pieces(ps) == ps,
    decreases ps.len(),
{
    if ps.len() > 0 {
        let init = ps.drop_last();
        assert forall|i: int| 0 <= i < init.len() implies (#[trigger] init[i]).len() > 0 by {
            assert(init[i] == ps[i]);
        }
        lemma_nonempty_pieces_id(init);
        assert(ps[ps.len() - 1].len() > 0);
        assert(init.push(ps.last()) =~= ps);
    }
}

proof fn lemma_join_pieces_unpadded(ps: Seq<Seq<char>>)
    ensures
        join_pieces(ps, seq![]) == ps,
    decreases ps.len(),
{
    if ps.len() > 1 {
        lemma_join_pieces_unpadded(ps.drop_last());
        assert(Seq::<char>::empty() + ps.last() =~= ps.last());
        assert(ps.drop_last().push(ps.last()) =~= ps);
    }
}

/// The parents joined by spaces read back as the same words.
proof fn lemma_words_reads_back(ps: Seq<Seq<char>>)
    requires
        forall|i: int|
            0 <= i < ps.len() ==> (#[trigger] ps[i]).len() > 0 && free_of(ps[i], CharClass::Whitespace),
    ensures
        words(join(ps, ' ', seq![])) == ps,
{
    if ps.len() == 0 {
        let e = seq![Seq::<char>::empty()];
        assert(join(ps, ' ', seq![]) =~= Seq::<char>::empty());
        assert(split_when(Seq::<char>::empty(), CharClass::Whitespace) =~= e);
        assert(e.drop_last() =~= Seq::<Seq<char>>::empty());
        assert(e.last().len() == 0);
        assert(nonempty_pieces(e) == nonempty_pieces(Seq::<Seq<char>>::empty()));
        assert(ps =~= Seq::<Seq<char>>::empty());
    } else {
        assert forall|i: int| 0 <= i < ps.len() implies free_of(#[trigger] ps[i], CharClass::Whitespace) by {}
        lemma_split_join(ps, ' ', seq![], CharClass::Whitespace);
        lemma_join_pieces_unpadded(ps);
        assert forall|i: int| 0 <= i < ps.len() implies (#[trigger] ps[i]).len() > 0 by {}
        lemma_nonempty_pieces_id(ps);
        assert(words(join(ps, ' ', seq![])) == nonempty_pieces(split_when(join(ps, ' ', seq![]), CharClass::Whitespace)));
    }
}

/// A ref the decoration can carry: not blank, trimmed, and without NULs,
/// commas or parentheses.
pub open spec fn readable_ref(r: Seq<char>) -> bool {
    &&& r.len() > 0
    &&& trim(r) == r
    &&& free_of(r, CharClass::Nul)
    &&& free_of(r, CharClass::Comma)
    &&& free_of(r, CharClass::Paren)
}

proof fn lemma_refs_from_padded(ps: Seq<Seq<char>>)
    requires
        forall|i: int| 0 <= i < ps.len() ==> readable_ref(#[trigger] ps[i]),
    ensures
        refs_from_pieces(join_pieces(ps, seq![' '])) == ps,
    decreases ps.len(),
{
    if ps.len() == 1 {
        assert(readable_ref(ps[0]));
        assert(join_pieces(ps, seq![' ']) == ps);
        assert(ps.drop_last() =~= Seq::<Seq<char>>::empty());
        assert(ps.last() == ps[0]);
        assert(refs_from_pieces(ps.drop_last()) =~= Seq::<Seq<char>>::empty());
        assert(trim(ps.last()) == ps[0]);
        assert(refs_from_pieces(ps) == refs_from_pieces(ps.drop_last()).push(ps[0]));
        assert(Seq::<Seq<char>>::empty().push(ps[0]) =~= ps);
    } else if ps.len() > 1 {
        let init = ps.drop_last();
        assert forall|i: int| 0 <= i < init.len() implies readable_ref(#[trigger] init[i]) by {
            assert(init[i] == ps[i]);
        }
        lemma_refs_from_padded(init);
        let r = ps.last();
        assert(readable_ref(ps[ps.len() - 1]));
        lemma_trim_lead(seq![' '], r);
        let jp = join_pieces(ps, seq![' ']);
        assert(jp.drop_last() == join_pieces(init, seq![' ']));
        assert(jp.last() == seq![' '] + r);
        assert(trim(jp.last()) == r);
        assert(refs_from_pieces(jp) == refs_from_pieces(jp.drop_last()).push(r));
        assert(init.push(r) =~= ps);
    }
}

/// The decoration of a list of refs reads back as those refs.
proof fn lemma_refs_reads_back(refs: Seq<Seq<char>>)
    requires
        forall|i: int| 0 <= i < refs.len() ==> readable_ref(#[trigger] refs[i]),
    ensures
        refs_of(decoration(refs)) == refs,
        free_of(decoration(refs), CharClass::Nul),
{
    if refs.len() == 0 {
        let e = Seq::<char>::empty();
        assert(decoration(refs) == e);
        assert(trim_start_when(e, CharClass::Whitespace) == e);
        assert(trim(e) == e);
        assert(trim_start_when(e, CharClass::Paren) == e);
        assert(trim_when(e, CharClass::Paren) == e);
        let pieces = seq![e];
        assert(split_when(e, CharClass::Comma) =~= pieces);
        assert(pieces.drop_last() =~= Seq::<Seq<char>>::empty());
        assert(trim(pieces.last()).len() == 0);
        assert(refs_from_pieces(pieces) == refs_from_pieces(Seq::<Seq<char>>::empty()));
        assert(refs =~= Seq::<Seq<char>>::empty());
    } else {
        let j = join(refs, ',', seq![' ']);
        assert forall|i: int| 0 <= i < refs.len() implies (#[trigger] refs[i]).len() > 0 by {
            assert(readable_ref(refs[i]));
        }
        lemma_join_ends(refs, ',', seq![' ']);
        assert(readable_ref(refs[0]));
        assert(readable_ref(refs[refs.len() - 1]));
        assert(!in_class(CharClass::Paren, refs[0][0]));
        assert(!in_class(CharClass::Paren, refs.last()[refs.last().len() - 1]));
        let d = decoration(refs);
        assert(d =~= seq!['('] + j + seq![')']);
        lemma_trim_when_id(d, CharClass::Whitespace);
        let jc = j + seq![')'];
        assert(d.drop_first() =~= jc);
        assert(d[0] == '(');
        assert(in_class(CharClass::Paren, d[0]));
        assert(jc[0] == j[0]);
        assert(!in_class(CharClass::Paren, jc[0]));
        assert(trim_start_when(jc, CharClass::Paren) == jc);
        assert(trim_start_when(d, CharClass::Paren) == trim_start_when(d.drop_first(), CharClass::Paren));
        assert(trim_start_when(d, CharClass::Paren) == jc);
        assert(jc.drop_last() =~= j);
        assert(jc.last() == ')');
        assert(j.last() == refs.last().last());
        assert(!in_class(CharClass::Paren, j.last()));
        assert(trim_end_when(j, CharClass::Paren) == j);
        assert(trim_end_when(jc, CharClass::Paren) == trim_end_when(j, CharClass::Paren));
        assert(trim_when(d, CharClass::Paren) == j);
        assert forall|i: int| 0 <= i < refs.len() implies free_of(#[trigger] refs[i], CharClass::Comma) by {
            assert(readable_ref(refs[i]));
        }
        lemma_split_join(refs, ',', seq![' '], CharClass::Comma);
        lemma_refs_from_padded(refs);
        assert(trim(d) == d);
        assert(trim_when(trim(d), CharClass::Paren) == j);
        assert forall|i: int| 0 <= i < refs.len() implies free_of(#[trigger] refs[i], CharClass::Nul) by {
            assert(readable_ref(refs[i]));
        }
        lemma_join_free(refs, ',', seq![' '], CharClass::Nul);
        assert forall|i: int| 0 <= i < d.len() implies !in_class(CharClass::Nul, #[trigger] d[i]) by {
            if 0 < i < d.len() - 1 {
                assert(d[i] == j[i - 1]);
            }
        }
    }
}

/// A commit the log format carries unchanged: a hash that is not blank, and
/// no field that holds a NUL or is padded with whitespace; parents without
/// whitespace and refs that `readable_ref` accepts.
pub open spec fn readable_commit(c: CommitView) -> bool {
    &&& c.hash.len() > 0
    &&& trim(c.hash) == c.hash
    &&& free_of(c.hash, CharClass::Nul)
    &&& forall|i: int|
        0 <= i < c.parents.len() ==> (#[trigger] c.parents[i]).len() > 0 && free_of(
            c.parents[i],
            CharClass::Whitespace,
        ) && free_of(c.parents[i], CharClass::Nul)
    &&& forall|i: int| 0 <= i < c.refs.len() ==> readable_ref(#[trigger] c.refs[i])
    &&& trim(c.subject) == c.subject
    &&& free_of(c.subject, CharClass::Nul)
    &&& trim(c.author) == c.author
    &&& free_of(c.author, CharClass::Nul)
}

pub open spec fn all_ws(s: Seq<char>) -> bool {
    forall|i: int| 0 <= i < s.len() ==> is_ws(#[trigger] s[i])
}

proof fn lemma_record_reads_back(c: CommitView, lead: Seq<char>)
    requires
        readable_commit(c),
        all_ws(lead),
    ensures
        commit_from(record_fields(c, lead)) == Some(c),
        forall|i: int| 0 <= i < 6 ==> free_of(#[trigger] record_fields(c, lead)[i], CharClass::Nul),
        record_fields(c, lead)[5].len() > 0,
{
    let f = record_fields(c, lead);
    lemma_trim_lead(lead, c.hash);
    assert forall|i: int| 0 <= i < c.parents.len() implies (#[trigger] c.parents[i]).len() > 0 && free_of(
        c.parents[i],
        CharClass::Whitespace,
    ) by {}
    lemma_words_reads_back(c.parents);
    lemma_refs_reads_back(c.refs);
    lemma_timestamp_reads_back(c.timestamp);
    assert forall|i: int| 0 <= i < c.parents.len() implies free_of(#[trigger] c.parents[i], CharClass::Nul) by {}
    lemma_join_free(c.parents, ' ', seq![], CharClass::Nul);
    let h = lead + c.hash;
    assert forall|i: int| 0 <= i < h.len() implies !in_class(CharClass::Nul, #[trigger] h[i]) by {
        if i < lead.len() {
            assert(is_ws(lead[i]));
            assert(h[i] == lead[i]);
        } else {
            assert(h[i] == c.hash[i - lead.len()]);
        }
    }
    assert forall|i: int| 0 <= i < 6 implies free_of(#[trigger] f[i], CharClass::Nul) by {
        if i == 0 {
            assert(f[0] == h);
        }
    }
}

// ---------------------------------------------------------------------------
// Records
// ---------------------------------------------------------------------------

pub open spec fn lead_of(i: int, sep: Seq<char>) -> Seq<char> {
    if i == 0 {
        seq![]
    } else {
        sep
    }
}

proof fn lemma_log_fields_shape(cs: Seq<CommitView>, sep: Seq<char>)
    ensures
        log_fields(cs, sep).len() == 6 * cs.len(),
        forall|i: int|
            0 <= i < cs.len() ==> #[trigger] log_fields(cs, sep).subrange(6 * i, 6 * i + 6) == record_fields(
                cs[i],
                lead_of(i, sep),
            ),
    decreases cs.len(),
{
    if cs.len() > 0 {
        let init = cs.drop_last();
        lemma_log_fields_shape(init, sep);
        let a = log_fields(init, sep);
        let n = cs.len() - 1;
        let rf = record_fields(cs.last(), if cs.len() == 1 { seq![] } else { sep });
        assert(log_fields(cs, sep) == a + rf);
        assert forall|i: int| 0 <= i < cs.len() implies #[trigger] log_fields(cs, sep).subrange(6 * i, 6 * i + 6)
            == record_fields(cs[i], lead_of(i, sep)) by {
            if i < n {
                assert(a.subrange(6 * i, 6 * i + 6) == record_fields(init[i], lead_of(i, sep)));
                assert((a + rf).subrange(6 * i, 6 * i + 6) =~= a.subrange(6 * i, 6 * i + 6));
                assert(init[i] == cs[i]);
            } else {
                assert((a + rf).subrange(6 * i, 6 * i + 6) =~= rf);
            }
        }
    }
}

proof fn lemma_records_read_back(cs: Seq<CommitView>, sep: Seq<char>, m: int)
    requires
        0 <= m <= cs.len(),
        forall|i: int| 0 <= i < cs.len() ==> readable_commit(#[trigger] cs[i]),
        all_ws(sep),
    ensures
        records_upto(log_fields(cs, sep), m) == cs.take(m),
    decreases m,
{
    if m > 0 {
        lemma_records_read_back(cs, sep, m - 1);
        lemma_log_fields_shape(cs, sep);
        let fs = log_fields(cs, sep);
        assert(fs.subrange(6 * (m - 1), 6 * (m - 1) + 6) == record_fields(cs[m - 1], lead_of(m - 1, sep)));
        assert(6 * (m - 1) + 6 == 6 * m);
        assert(readable_commit(cs[m - 1]));
        assert(all_ws(lead_of(m - 1, sep)));
        lemma_record_reads_back(cs[m - 1], lead_of(m - 1, sep));
        assert(cs.take(m - 1).push(cs[m - 1]) =~= cs.take(m));
    }
}

proof fn lemma_log_fields_nul_free(cs: Seq<CommitView>, sep: Seq<char>)
    requires
        forall|i: int| 0 <= i < cs.len() ==> readable_commit(#[trigger] cs[i]),
        all_ws(sep),
    ensures
        forall|j: int| 0 <= j < log_fields(cs, sep).len() ==> free_of(#[trigger] log_fields(cs, sep)[j], CharClass::Nul),
        cs.len() > 0 ==> log_fields(cs, sep).last().len() > 0,
{
    lemma_log_fields_shape(cs, sep);
    let fs = log_fields(cs, sep);
    assert forall|j: int| 0 <= j < fs.len() implies free_of(#[trigger] fs[j], CharClass::Nul) by {
        let i = j / 6;
        assert(0 <= i < cs.len());
        assert(readable_commit(cs[i]));
        assert(all_ws(lead_of(i, sep)));
        lemma_record_reads_back(cs[i], lead_of(i, sep));
        assert(fs.subrange(6 * i, 6 * i + 6) == record_fields(cs[i], lead_of(i, sep)));
        assert(fs[j] == fs.subrange(6 * i, 6 * i + 6)[j - 6 * i]);
    }
    if cs.len() > 0 {
        let i = cs.len() - 1;
        assert(readable_commit(cs[i]));
        assert(all_ws(lead_of(i, sep)));
        lemma_record_reads_back(cs[i], lead_of(i, sep));
        assert(fs.subrange(6 * i, 6 * i + 6) == record_fields(cs[i], lead_of(i, sep)));
        assert(fs.last() == fs.subrange(6 * i, 6 * i + 6)[5]);
    }
}

/// Reading the log that `git log` prints for a list of commits gives those
/// commits back, with the records one after another or separated by line
/// breaks (any whitespace), whenever each commit is one the format carries
/// unchanged (`readable_commit`).
pub proof fn law_log_text_reads_back(cs: Seq<CommitView>, sep: Seq<char>)
    requires
        forall|i: int| 0 <= i < cs.len() ==> readable_commit(#[trigger] cs[i]),
        all_ws(sep),
    ensures
        parse_log_spec(log_text(cs, sep)) == cs,
{
    let fs = log_fields(cs, sep);
    lemma_log_fields_nul_free(cs, sep);
    lemma_split_nul_terminated(fs);
    lemma_log_fields_shape(cs, sep);
    let split = fs.push(seq![]);
    assert(split.drop_last() =~= fs);
    assert(drop_empty_tail(split) == drop_empty_tail(fs));
    if cs.len() == 0 {
        assert(fs.len() == 0);
    } else {
        assert(fs[fs.len() - 1].len() > 0);
    }
    assert(drop_empty_tail(fs) == fs);
    assert(fs.len() / 6 == cs.len()) by (nonlinear_arith)
        requires
            fs.len() == 6 * cs.len(),
    ;
    lemma_records_read_back(cs, sep, cs.len() as int);
    assert(cs.take(cs.len() as int) =~= cs);
}

} // verus!
