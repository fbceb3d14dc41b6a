use vstd::prelude::*;
use vstd::string::StrSliceExecFns;
use vstd::string::StringExecFns;

verus! {

/// The views of a vector of strings, as a sequence of character sequences.
pub open spec fn views_of(s: Seq<String>) -> Seq<Seq<char>> {
    s.map_values(|x: String| x@)
}

/// Splitting a character sequence at every occurrence of `sep`, keeping empty
/// pieces, with the meaning of `str::split`: the empty input yields one empty
/// piece, and a trailing separator yields a trailing empty piece.
pub open spec fn split_on(s: Seq<char>, sep: char) -> Seq<Seq<char>>
    decreases s.len(),
{
    if s.len() == 0 {
        seq![Seq::<char>::empty()]
    } else if s[0] == sep {
        seq![Seq::<char>::empty()] + split_on(s.skip(1), sep)
    } else {
        let rest = split_on(s.skip(1), sep);
        seq![seq![s[0]] + rest[0]] + rest.skip(1)
    }
}

pub proof fn lemma_split_on_nonempty(s: Seq<char>, sep: char)
    ensures
        split_on(s, sep).len() >= 1,
    decreases s.len(),
{
    if s.len() != 0 {
        lemma_split_on_nonempty(s.skip(1), sep);
    }
}

/// Splitting a sequence whose first `k` characters are free of the separator:
/// if no separator occurs at all, the sequence is its own single piece; if the
/// first separator stands at `k`, the first piece is everything before it.
pub proof fn lemma_split_at_first_sep(s: Seq<char>, sep: char, k: int)
    requires
        0 <= k <= s.len(),
        forall|j: int| 0 <= j < k ==> s[j] != sep,
    ensures
        k == s.len() ==> split_on(s, sep) == seq![s],
        k < s.len() && s[k] == sep ==> split_on(s, sep) == seq![s.take(k)] + split_on(
            s.skip(k + 1),
            sep,
        ),
    decreases s.len(),
{
    lemma_split_on_nonempty(s, sep);
    if s.len() == 0 {
        assert(seq![Seq::<char>::empty()] =~~= seq![s]);
    } else if k == 0 {
        if s[0] == sep {
            assert(s.take(0) =~= Seq::<char>::empty());
            assert(s.skip(1) =~= s.skip(k + 1));
            assert(split_on(s, sep) =~~= seq![s.take(k)] + split_on(s.skip(k + 1), sep));
        }
    } else {
        let s1 = s.skip(1);
        assert(forall|j: int| 0 <= j < k - 1 ==> s1[j] != sep);
        lemma_split_at_first_sep(s1, sep, k - 1);
        lemma_split_on_nonempty(s1, sep);
        let rest = split_on(s1, sep);
        if k == s.len() {
            assert(rest == seq![s1]);
            assert(seq![s[0]] + rest[0] =~= s);
            assert(rest.skip(1) =~~= Seq::<Seq<char>>::empty());
            assert(split_on(s, sep) =~~= seq![s]);
        } else if s[k] == sep {
            assert(s1[k - 1] == sep);
            assert(rest == seq![s1.take(k - 1)] + split_on(s1.skip(k - 1 + 1), sep));
            assert(seq![s[0]] + rest[0] =~= s.take(k)) by {
                assert(rest[0] =~= s1.take(k - 1));
            }
            assert(s1.skip(k) =~= s.skip(k + 1));
            assert(rest.skip(1) =~~= split_on(s.skip(k + 1), sep));
            assert(split_on(s, sep) =~~= seq![s.take(k)] + split_on(s.skip(k + 1), sep));
        }
    }
}

/// Splits `s` at every occurrence of `sep`, as `str::split` does.
pub fn split_str(s: &str, sep: char) -> (r: Vec<String>)
    ensures
        views_of(r@) == split_on(s@, sep),
{
    let n: usize = s.unicode_len();
    let mut r: Vec<String> = Vec::new();
    let mut start: usize = 0;
    let mut i: usize = 0;
    proof {
        assert(s@.skip(0) =~= s@);
        assert(split_on(s@, sep) =~~= views_of(r@) + split_on(s@.skip(0), sep));
    }
    while i < n
        invariant
            n == s@.len(),
            start <= i <= n,
            forall|j: int| start <= j < i ==> s@[j] != sep,
            split_on(s@, sep) == views_of(r@) + split_on(s@.skip(start as int), sep),
        decreases n - i,
    {
        if s.get_char(i) == sep {
            let piece = s.substring_char(start, i).to_owned();
            proof {
                let tail = s@.skip(start as int);
                assert(forall|j: int| 0 <= j < i - start ==> tail[j] != sep);
                lemma_split_at_first_sep(tail, sep, i - start);
                assert(tail[i - start] == sep);
                assert(tail.take(i - start) =~= s@.subrange(start as int, i as int));
                assert(tail.skip(i - start + 1) =~= s@.skip(i + 1));
                assert(views_of(r@.push(piece)) =~~= views_of(r@) + seq![piece@]);
                assert(split_on(s@, sep) =~~= views_of(r@.push(piece)) + split_on(
                    s@.skip(i + 1),
                    sep,
                ));
            }
            r.push(piece);
            start = i + 1;
        }
        i += 1;
    }
    let last = s.substring_char(start, n).to_owned();
    proof {
        let tail = s@.skip(start as int);
        lemma_split_at_first_sep(tail, sep, n - start);
        assert(tail =~= s@.subrange(start as int, n as int));
        assert(views_of(r@.push(last)) =~~= views_of(r@) + seq![last@]);
        assert(split_on(s@, sep) =~~= views_of(r@.push(last)));
    }
    r.push(last);
    r
}

/// No piece produced by splitting contains the separator itself.
pub proof fn lemma_split_pieces_sep_free(s: Seq<char>, sep: char)
    ensures
        forall|i: int|
            0 <= i < split_on(s, sep).len() ==> !(#[trigger] split_on(s, sep)[i]).contains(sep),
    decreases s.len(),
{
    if s.len() == 0 {
        assert(forall|j: int| 0 <= j < split_on(s, sep)[0].len() ==> split_on(s, sep)[0][j] != sep);
    } else if s[0] == sep {
        lemma_split_pieces_sep_free(s.skip(1), sep);
        assert forall|i: int| 0 <= i < split_on(s, sep).len() implies !(#[trigger] split_on(
            s,
            sep,
        )[i]).contains(sep) by {
            if i == 0 {
                assert(forall|j: int|
                    0 <= j < split_on(s, sep)[0].len() ==> split_on(s, sep)[0][j] != sep);
            } else {
                assert(split_on(s, sep)[i] == split_on(s.skip(1), sep)[i - 1]);
            }
        }
    } else {
        lemma_split_pieces_sep_free(s.skip(1), sep);
        lemma_split_on_nonempty(s.skip(1), sep);
        let rest = split_on(s.skip(1), sep);
        assert forall|i: int| 0 <= i < split_on(s, sep).len() implies !(#[trigger] split_on(
            s,
            sep,
        )[i]).contains(sep) by {
            if i == 0 {
                let piece = seq![s[0]] + rest[0];
                assert(!rest[0].contains(sep));
                assert forall|j: int| 0 <= j < piece.len() implies piece[j] != sep by {
                    if j > 0 {
                        assert(piece[j] == rest[0][j - 1]);
                        assert(!rest[0].contains(sep));
                    }
                }
                assert(split_on(s, sep)[0] == piece);
            } else {
                assert(split_on(s, sep)[i] == rest.skip(1)[i - 1]);
                assert(rest.skip(1)[i - 1] == rest[i]);
            }
        }
    }
}

/// The pieces of a character sequence between its newlines: the empty input
/// has no pieces, and a trailing newline does not open a final empty piece.
pub open spec fn line_pieces(s: Seq<char>) -> Seq<Seq<char>> {
    if s.len() == 0 {
        Seq::<Seq<char>>::empty()
    } else if s[s.len() - 1] == '\n' {
        split_on(s, '\n').drop_last()
    } else {
        split_on(s, '\n')
    }
}

/// A line with its trailing carriage return, if any, removed.
pub open spec fn strip_cr(line: Seq<char>) -> Seq<char> {
    if line.len() > 0 && line[line.len() - 1] == '\r' {
        line.drop_last()
    } else {
        line
    }
}

/// The lines of a character sequence, with the meaning of `str::lines`: the
/// pieces between newlines, each stripped of a trailing carriage return, the
/// empty input has no lines, and a trailing newline does not open a final
/// empty line.
pub open spec fn lines_of(s: Seq<char>) -> Seq<Seq<char>> {
    line_pieces(s).map_values(|l: Seq<char>| strip_cr(l))
}

/// Every given line followed by a newline, in order.
pub open spec fn joined_lines(items: Seq<Seq<char>>) -> Seq<char>
    decreases items.len(),
{
    if items.len() == 0 {
        Seq::<char>::empty()
    } else {
        items[0] + seq!['\n'] + joined_lines(items.skip(1))
    }
}

pub proof fn lemma_joined_lines_push(a: Seq<Seq<char>>, x: Seq<char>)
    ensures
        joined_lines(a.push(x)) == joined_lines(a) + x + seq!['\n'],
    decreases a.len(),
{
    if a.len() == 0 {
        assert(a.push(x)[0] =~= x);
        assert(a.push(x).skip(1) =~~= Seq::<Seq<char>>::empty());
        assert(joined_lines(Seq::<Seq<char>>::empty()) == Seq::<char>::empty());
        assert(joined_lines(a.push(x)) == x + seq!['\n'] + Seq::<char>::empty());
        assert(x + seq!['\n'] + Seq::<char>::empty() =~= joined_lines(a) + x + seq!['\n']);
    } else {
        lemma_joined_lines_push(a.skip(1), x);
        assert(a.push(x).skip(1) =~~= a.skip(1).push(x));
        assert(a.push(x)[0] =~= a[0]);
        assert(joined_lines(a.push(x)) == a[0] + seq!['\n'] + joined_lines(a.skip(1).push(x)));
        assert(a[0] + seq!['\n'] + (joined_lines(a.skip(1)) + x + seq!['\n']) =~= (a[0]
            + seq!['\n'] + joined_lines(a.skip(1))) + x + seq!['\n']);
    }
}

proof fn lemma_joined_lines_ends_newline(items: Seq<Seq<char>>)
    requires
        items.len() > 0,
    ensures
        joined_lines(items).len() > 0,
        joined_lines(items)[joined_lines(items).len() - 1] == '\n',
    decreases items.len(),
{
    if items.skip(1).len() == 0 {
        assert(joined_lines(items.skip(1)) == Seq::<char>::empty());
        assert(joined_lines(items) =~= items[0] + seq!['\n']);
        assert(joined_lines(items)[joined_lines(items).len() - 1] == '\n');
    } else {
        lemma_joined_lines_ends_newline(items.skip(1));
        let t = joined_lines(items.skip(1));
        assert(joined_lines(items).len() == items[0].len() + 1 + t.len());
        assert(joined_lines(items)[joined_lines(items).len() - 1] == t[t.len() - 1]);
    }
}

/// Joining any pieces that are themselves free of newlines, then splitting,
/// gives the pieces back.
proof fn lemma_line_pieces_round_trip(items: Seq<Seq<char>>)
    requires
        forall|i: int| 0 <= i < items.len() ==> !(#[trigger] items[i]).contains('\n'),
    ensures
        line_pieces(joined_lines(items)) == items,
    decreases items.len(),
{
    if items.len() == 0 {
        assert(line_pieces(joined_lines(items)) =~~= items);
    } else {
        let s = joined_lines(items);
        let head = items[0];
        let k = head.len() as int;
        let rest = items.skip(1);
        let srest = joined_lines(rest);
        lemma_joined_lines_ends_newline(items);
        assert(forall|j: int| 0 <= j < k ==> s[j] != '\n') by {
            assert(forall|j: int| 0 <= j < k ==> s[j] == head[j]);
        }
        assert(s[k] == '\n');
        lemma_split_at_first_sep(s, '\n', k);
        assert(s.take(k) =~= head);
        assert(s.skip(k + 1) =~= srest);
        assert(split_on(s, '\n') == seq![head] + split_on(srest, '\n'));
        assert(forall|i: int| 0 <= i < rest.len() ==> !(#[trigger] rest[i]).contains('\n'));
        lemma_line_pieces_round_trip(rest);
        if rest.len() == 0 {
            assert(srest.len() == 0);
            assert(split_on(srest, '\n') == seq![Seq::<char>::empty()]);
            assert(line_pieces(s) =~~= items) by {
                assert((seq![head] + seq![Seq::<char>::empty()]).drop_last() =~~= seq![head]);
                assert(seq![head] =~~= items);
            }
        } else {
            lemma_joined_lines_ends_newline(rest);
            lemma_split_on_nonempty(srest, '\n');
            let ps = split_on(srest, '\n');
            assert(ps.drop_last() == rest);
            assert(line_pieces(s) =~~= items) by {
                assert((seq![head] + ps).drop_last() =~~= seq![head] + ps.drop_last());
            }
        }
    }
}

/// The round trip of the newline-delimited format: joining any lines that
/// are free of newlines and do not end in a carriage return, then splitting,
/// gives the lines back.
pub proof fn lemma_lines_round_trip(items: Seq<Seq<char>>)
    requires
        forall|i: int| 0 <= i < items.len() ==> !(#[trigger] items[i]).contains('\n'),
        forall|i: int|
            0 <= i < items.len() ==> ((#[trigger] items[i]).len() == 0 || items[i][items[i].len()
                - 1] != '\r'),
    ensures
        lines_of(joined_lines(items)) == items,
{
    lemma_line_pieces_round_trip(items);
    assert(lines_of(joined_lines(items)) =~~= items) by {
        assert(forall|i: int|
            0 <= i < items.len() ==> lines_of(joined_lines(items))[i] == strip_cr(
                #[trigger] items[i],
            ));
    }
}

/// Splits `s` into its lines, as `str::lines` does: at every newline, a
/// trailing carriage return stripped from each line.
pub fn parse_lines(s: &str) -> (r: Vec<String>)
    ensures
        views_of(r@) == lines_of(s@),
{
    let n: usize = s.unicode_len();
    if n == 0 {
        let r: Vec<String> = Vec::new();
        proof {
            assert(views_of(r@) =~~= lines_of(s@));
        }
        return r;
    }
    let mut parts = split_str(s, '\n');
    if s.get_char(n - 1) == '\n' {
        proof {
            lemma_split_on_nonempty(s@, '\n');
            assert(parts@.len() == views_of(parts@).len());
        }
        let _ = parts.pop();
    }
    proof {
        assert(views_of(parts@) =~~= line_pieces(s@));
    }
    let mut r: Vec<String> = Vec::new();
    let mut i: usize = 0;
    while i < parts.len()
        invariant
            i <= parts@.len(),
            views_of(parts@) == line_pieces(s@),
            r@.len() == i,
            forall|j: int| 0 <= j < i ==> (#[trigger] r@[j])@ == strip_cr(parts@[j]@),
        decreases parts@.len() - i,
    {
        let piece = &parts[i];
        let m: usize = piece.as_str().unicode_len();
        if m > 0 && piece.as_str().get_char(m - 1) == '\r' {
            let stripped = piece.as_str().substring_char(0, m - 1).to_owned();
            proof {
                assert(stripped@ =~= strip_cr(parts@[i as int]@));
            }
            r.push(stripped);
        } else {
            r.push(piece.clone());
        }
        i += 1;
    }
    proof {
        assert(views_of(r@) =~~= lines_of(s@)) by {
            assert(forall|j: int|
                0 <= j < r@.len() ==> views_of(r@)[j] == (#[trigger] r@[j])@ && lines_of(s@)[j]
                    == strip_cr(line_pieces(s@)[j]));
            assert(forall|j: int|
                0 <= j < parts@.len() ==> (#[trigger] parts@[j])@ == line_pieces(s@)[j]);
        }
    }
    r
}

/// Joins each item, followed by a newline, into one string.
pub fn join_lines(items: &Vec<String>) -> (r: String)
    ensures
        r@ == joined_lines(views_of(items@)),
{
    let mut out = String::new();
    let mut i: usize = 0;
    proof {
        assert(views_of(items@).take(0) =~~= Seq::<Seq<char>>::empty());
    }
    while i < items.len()
        invariant
            i <= items.len(),
            out@ == joined_lines(views_of(items@).take(i as int)),
        decreases items.len() - i,
    {
        out.append(items[i].as_str());
        out.append("\n");
        proof {
            reveal_strlit("\n");
            assert("\n"@ =~= seq!['\n']);
            lemma_joined_lines_push(views_of(items@).take(i as int), items@[i as int]@);
            assert(views_of(items@).take(i + 1) =~~= views_of(items@).take(i as int).push(
                items@[i as int]@,
            ));
        }
        i += 1;
    }
    proof {
        assert(views_of(items@).take(items@.len() as int) =~~= views_of(items@));
    }
    out
}

/// A copy of the vector whose strings equal the originals.
pub fn clone_strings(v: &Vec<String>) -> (r: Vec<String>)
    ensures
        r@ == v@,
{
    let mut r: Vec<String> = Vec::new();
    let mut i: usize = 0;
    while i < v.len()
        invariant
            i <= v@.len(),
            r@ == v@.take(i as int),
        decreases v@.len() - i,
    {
        r.push(v[i].clone());
        proof {
            assert(r@ =~= v@.take(i + 1));
        }
        i += 1;
    }
    proof {
        assert(v@.take(v@.len() as int) =~= v@);
    }
    r
}

/// True exactly when `x` occurs among the strings of `v`.
pub fn contains_str(v: &Vec<String>, x: &String) -> (r: bool)
    ensures
        r == views_of(v@).contains(x@),
{
    let mut i: usize = 0;
    while i < v.len()
        invariant
            i <= v.len(),
            forall|j: int| 0 <= j < i ==> (#[trigger] v@[j])@ != x@,
        decreases v.len() - i,
    {
        if v[i] == *x {
            assert(views_of(v@)[i as int] == x@);
            return true;
        }
        i += 1;
    }
    assert(forall|j: int| 0 <= j < v@.len() ==> views_of(v@)[j] == (#[trigger] v@[j])@);
    false
}

} // verus!
