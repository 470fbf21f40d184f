//! Verified string helpers: splitting on a separator character, joining with
//! one, locating a character, and comparing strings, together with the lemmas
//! that relate splitting and joining.

use vstd::prelude::*;

verus! {

/// The fields obtained by cutting `s` at every occurrence of `sep`.
///
/// Every occurrence of `sep` ends a field, so `n` separators yield `n + 1`
/// fields and the empty sequence yields one empty field.
pub open spec fn spec_split(s: Seq<char>, sep: char) -> Seq<Seq<char>>
    decreases s.len(),
{
    if s.len() == 0 {
        seq![Seq::<char>::empty()]
    } else {
        let init = spec_split(s.drop_last(), sep);
        if s.last() == sep {
            init.push(Seq::<char>::empty())
        } else {
            init.update(init.len() - 1, init.last().push(s.last()))
        }
    }
}

/// The parts laid end to end with `sep` between consecutive parts.
pub open spec fn spec_join(parts: Seq<Seq<char>>, sep: char) -> Seq<char>
    decreases parts.len(),
{
    if parts.len() == 0 {
        Seq::<char>::empty()
    } else if parts.len() == 1 {
        parts[0]
    } else {
        spec_join(parts.drop_last(), sep) + seq![sep] + parts.last()
    }
}

/// The index of the first occurrence of `c` in `s`, if any.
pub open spec fn spec_find(s: Seq<char>, c: char) -> Option<int>
    decreases s.len(),
{
    if s.len() == 0 {
        None
    } else if s[0] == c {
        Some(0int)
    } else {
        match spec_find(s.drop_first(), c) {
            Some(i) => Some(i + 1),
            None => None,
        }
    }
}

/// Splitting always yields at least one field.
proof fn lemma_split_len_pos(s: Seq<char>, sep: char)
    ensures
        spec_split(s, sep).len() > 0,
    decreases s.len(),
{
    if s.len() > 0 {
        lemma_split_len_pos(s.drop_last(), sep);
    }
}

/// A sequence free of the separator splits into the single field it is.
proof fn lemma_split_no_sep(s: Seq<char>, sep: char)
    requires
        !s.contains(sep),
    ensures
        spec_split(s, sep) == seq![s],
    decreases s.len(),
{
    if s.len() == 0 {
        assert(s =~= Seq::<char>::empty());
        assert(spec_split(s, sep) =~= seq![s]);
    } else {
        assert(!s.drop_last().contains(sep)) by {
            if s.drop_last().contains(sep) {
                let i = choose|i: int| 0 <= i < s.drop_last().len() && s.drop_last()[i] == sep;
                assert(s[i] == sep);
            }
        }
        lemma_split_no_sep(s.drop_last(), sep);
        assert(s[s.len() - 1] != sep);
        assert(spec_split(s, sep) =~= seq![s.drop_last().push(s.last())]);
        assert(s.drop_last().push(s.last()) =~= s);
        assert(spec_split(s, sep) =~= seq![s]);
    }
}

/// Appending a separator and then a separator-free tail adds exactly one field.
proof fn lemma_split_append(x: Seq<char>, b: Seq<char>, sep: char)
    requires
        !b.contains(sep),
    ensures
        spec_split(x + seq![sep] + b, sep) == spec_split(x, sep).push(b),
    decreases b.len(),
{
    lemma_split_len_pos(x, sep);
    if b.len() == 0 {
        let s = x + seq![sep] + b;
        assert(s.len() == x.len() + 1);
        assert(s.last() == sep);
        assert(s.drop_last() =~= x);
        assert(b =~= Seq::<char>::empty());
        assert(spec_split(s, sep) =~= spec_split(x, sep).push(b));
    } else {
        let s = x + seq![sep] + b;
        assert(!b.drop_last().contains(sep)) by {
            if b.drop_last().contains(sep) {
                let i = choose|i: int| 0 <= i < b.drop_last().len() && b.drop_last()[i] == sep;
                assert(b[i] == sep);
            }
        }
        lemma_split_append(x, b.drop_last(), sep);
        assert(b[b.len() - 1] != sep);
        assert(s.last() == b.last());
        assert(s.last() != sep);
        assert(s.drop_last() =~= x + seq![sep] + b.drop_last());
        let init = spec_split(s.drop_last(), sep);
        assert(init == spec_split(x, sep).push(b.drop_last()));
        assert(init.last() == b.drop_last());
        assert(init.len() == spec_split(x, sep).len() + 1);
        assert(spec_split(s, sep) == init.update(init.len() - 1, b.drop_last().push(b.last())));
        assert(b.drop_last().push(b.last()) =~= b);
        assert(init.update(init.len() - 1, b) =~= spec_split(x, sep).push(b));
    }
}

/// Splitting undoes joining, provided no part contains the separator and
/// there is at least one part.
pub proof fn lemma_split_join(parts: Seq<Seq<char>>, sep: char)
    requires
        parts.len() > 0,
        forall|i: int| 0 <= i < parts.len() ==> !(#[trigger] parts[i]).contains(sep),
    ensures
        spec_split(spec_join(parts, sep), sep) == parts,
    decreases parts.len(),
{
    if parts.len() == 1 {
        lemma_split_no_sep(parts[0], sep);
        assert(spec_split(spec_join(parts, sep), sep) =~= parts);
    } else {
        lemma_split_join(parts.drop_last(), sep);
        lemma_split_append(spec_join(parts.drop_last(), sep), parts.last(), sep);
        assert(parts.drop_last().push(parts.last()) =~= parts);
    }
}

/// A join contains a character only if the separator or one of the parts does.
pub proof fn lemma_join_no_char(parts: Seq<Seq<char>>, sep: char, c: char)
    requires
        c != sep,
        forall|i: int| 0 <= i < parts.len() ==> !(#[trigger] parts[i]).contains(c),
    ensures
        !spec_join(parts, sep).contains(c),
    decreases parts.len(),
{
    if parts.len() == 0 {
    } else if parts.len() == 1 {
        assert(spec_join(parts, sep) == parts[0]);
    } else {
        lemma_join_no_char(parts.drop_last(), sep, c);
        let j = spec_join(parts, sep);
        let front = spec_join(parts.drop_last(), sep);
        assert(j == front + seq![sep] + parts.last());
        if j.contains(c) {
            let i = choose|i: int| 0 <= i < j.len() && j[i] == c;
            if i < front.len() {
                assert(front[i] == c);
            } else if i == front.len() {
                assert(j[i] == sep);
            } else {
                assert(parts.last()[i - front.len() - 1] == c);
                assert(parts[parts.len() - 1].contains(c));
            }
        }
    }
}

/// A join of nonempty parts is nonempty.
pub proof fn lemma_join_nonempty(parts: Seq<Seq<char>>, sep: char)
    requires
        parts.len() > 0,
        forall|i: int| 0 <= i < parts.len() ==> (#[trigger] parts[i]).len() > 0,
    ensures
        spec_join(parts, sep).len() > 0,
    decreases parts.len(),
{
    if parts.len() > 1 {
        lemma_join_nonempty(parts.drop_last(), sep);
    }
}

/// With the first occurrence of `c` confined to position `k.len()`, finding
/// `c` in `k + [c] + v` names exactly that position.
pub proof fn lemma_find_at_key(k: Seq<char>, v: Seq<char>, c: char)
    requires
        !k.contains(c),
    ensures
        spec_find(k + seq![c] + v, c) == Some(k.len() as int),
    decreases k.len(),
{
    let s = k + seq![c] + v;
    if k.len() == 0 {
        assert(s[0] == c);
    } else {
        assert(s[0] == k[0]);
        assert(k[0] != c);
        assert(!k.drop_first().contains(c)) by {
            if k.drop_first().contains(c) {
                let i = choose|i: int| 0 <= i < k.drop_first().len() && k.drop_first()[i] == c;
                assert(k[i + 1] == c);
            }
        }
        lemma_find_at_key(k.drop_first(), v, c);
        assert(s.drop_first() =~= k.drop_first() + seq![c] + v);
    }
}

/// Whether two string slices hold the same characters.
pub fn str_eq(a: &str, b: &str) -> (r: bool)
    ensures
        r == (a@ == b@),
{
    let alen = a.unicode_len();
    let blen = b.unicode_len();
    if alen != blen {
        return false;
    }
    let mut i: usize = 0;
    while i < alen
        invariant
            0 <= i <= alen,
            alen == a@.len(),
            alen == b@.len(),
            forall|j: int| 0 <= j < i ==> a@[j] == b@[j],
        decreases alen - i,
    {
        if a.get_char(i) != b.get_char(i) {
            return false;
        }
        i += 1;
    }
    proof {
        assert(a@ =~= b@);
    }
    true
}

/// The index of the first occurrence of `c` in `s`, if there is one.
pub fn find_char(s: &str, c: char) -> (r: Option<usize>)
    ensures
        match r {
            Some(i) => spec_find(s@, c) == Some(i as int),
            None => spec_find(s@, c) is None,
        },
{
    let n = s.unicode_len();
    let mut i: usize = 0;
    while i < n
        invariant
            0 <= i <= n,
            n == s@.len(),
            forall|j: int| 0 <= j < i ==> s@[j] != c,
        decreases n - i,
    {
        if s.get_char(i) == c {
            proof {
                lemma_find_prefix_clear(s@, c, i as int);
            }
            return Some(i);
        }
        i += 1;
    }
    proof {
        lemma_find_none(s@, c);
    }
    None
}

/// If every character before `i` differs from `c` and `s[i] == c`, the first
/// occurrence is at `i`.
proof fn lemma_find_prefix_clear(s: Seq<char>, c: char, i: int)
    requires
        0 <= i < s.len(),
        s[i] == c,
        forall|j: int| 0 <= j < i ==> s[j] != c,
    ensures
        spec_find(s, c) == Some(i),
    decreases i,
{
    if i == 0 {
    } else {
        assert(s[0] != c);
        assert(s.drop_first()[i - 1] == c);
        assert(forall|j: int| 0 <= j < i - 1 ==> s.drop_first()[j] != c);
        lemma_find_prefix_clear(s.drop_first(), c, i - 1);
    }
}

/// A sequence with no occurrence of `c` has none to find.
proof fn lemma_find_none(s: Seq<char>, c: char)
    requires
        forall|j: int| 0 <= j < s.len() ==> s[j] != c,
    ensures
        spec_find(s, c) is None,
    decreases s.len(),
{
    if s.len() > 0 {
        assert(forall|j: int| 0 <= j < s.drop_first().len() ==> s.drop_first()[j] != c);
        lemma_find_none(s.drop_first(), c);
    }
}

/// The first occurrence found is an occurrence, and nothing before it is one.
pub proof fn lemma_find_spec(s: Seq<char>, c: char)
    ensures
        match spec_find(s, c) {
            Some(i) => 0 <= i < s.len() && s[i] == c && forall|j: int| 0 <= j < i ==> s[j] != c,
            None => !s.contains(c),
        },
    decreases s.len(),
{
    if s.len() == 0 {
    } else if s[0] == c {
    } else {
        lemma_find_spec(s.drop_first(), c);
        match spec_find(s.drop_first(), c) {
            Some(i) => {
                assert(s[i + 1] == s.drop_first()[i]);
                assert(forall|j: int| 1 <= j < i + 1 ==> s[j] == s.drop_first()[j - 1]);
            },
            None => {
                if s.contains(c) {
                    let i = choose|i: int| 0 <= i < s.len() && s[i] == c;
                    assert(s.drop_first()[i - 1] == c);
                }
            },
        }
    }
}

/// Cut `s` at every occurrence of `sep`.
pub fn split_on(s: &str, sep: char) -> (r: Vec<String>)
    ensures
        r.deep_view() == spec_split(s@, sep),
{
    let n = s.unicode_len();
    let mut parts: Vec<String> = Vec::new();
    let mut cur: String = String::new();
    let mut i: usize = 0;
    while i < n
        invariant
            0 <= i <= n,
            n == s@.len(),
            parts.deep_view().push(cur@) == spec_split(s@.take(i as int), sep),
        decreases n - i,
    {
        let ghost prefix = s@.take(i as int);
        let c = s.get_char(i);
        if c == sep {
            let ghost old_parts = parts.deep_view();
            let ghost old_cur = cur@;
            parts.push(cur);
            cur = String::new();
            proof {
                assert(parts.deep_view() =~= old_parts.push(old_cur));
                assert(s@.take(i + 1).drop_last() =~= prefix);
                assert(s@.take(i + 1).last() == sep);
                assert(parts.deep_view().push(cur@) =~= spec_split(s@.take(i + 1), sep));
            }
        } else {
            let ghost old_cur = cur@;
            let piece = s.substring_char(i, i + 1);
            cur.append(piece);
            proof {
                assert(piece@ =~= seq![s@[i as int]]);
                assert(cur@ =~= old_cur.push(s@[i as int]));
                assert(s@.take(i + 1).drop_last() =~= prefix);
                assert(s@.take(i + 1).last() == s@[i as int]);
                let init = spec_split(prefix, sep);
                assert(init == parts.deep_view().push(old_cur));
                assert(init.last() == old_cur);
                assert(init.len() == parts.deep_view().len() + 1);
                assert(spec_split(s@.take(i + 1), sep) == init.update(
                    init.len() - 1,
                    old_cur.push(s@[i as int]),
                ));
                assert(init.update(init.len() - 1, cur@) =~= parts.deep_view().push(cur@));
            }
        }
        i += 1;
    }
    proof {
        assert(s@.take(n as int) =~= s@);
    }
    parts.push(cur);
    proof {
        assert(parts.deep_view() =~= spec_split(s@, sep));
    }
    parts
}

/// Join the parts with the single-character separator `sep`.
pub fn join_with(parts: &Vec<String>, sep: &str) -> (r: String)
    requires
        sep@.len() == 1,
    ensures
        r@ == spec_join(parts.deep_view(), sep@[0]),
{
    let mut out = String::new();
    let mut i: usize = 0;
    while i < parts.len()
        invariant
            0 <= i <= parts.len(),
            sep@.len() == 1,
            out@ == spec_join(parts.deep_view().take(i as int), sep@[0]),
        decreases parts.len() - i,
    {
        let ghost views = parts.deep_view();
        if i > 0 {
            out.append(sep);
            proof {
                assert(sep@ =~= seq![sep@[0]]);
            }
        }
        out.append(parts[i].as_str());
        proof {
            assert(views[i as int] == parts@[i as int]@);
            assert(views.take(i + 1).drop_last() =~= views.take(i as int));
            assert(views.take(i + 1).last() == views[i as int]);
            if i == 0 {
                assert(views.take(1).len() == 1);
                assert(spec_join(views.take(1), sep@[0]) == views[0]);
            }
        }
        i += 1;
    }
    proof {
        assert(parts.deep_view().take(parts.len() as int) =~= parts.deep_view());
    }
    out
}

} // verus!
