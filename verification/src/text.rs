//! Pure text utilities: ASCII case folding, decimal rendering of counters,
//! and the path strings the sweeper builds (joined paths, archive candidate
//! names, and the temporary path an archive is staged at).
use vstd::prelude::*;

verus! {

/// ASCII upper-case letters fold to lower case; every other character is kept.
pub open spec fn lower_char(c: char) -> char {
    if 65 <= c as int && c as int <= 90 {
        (c as int + 32) as char
    } else {
        c
    }
}

/// A character sequence, ASCII-lower-cased pointwise.
pub open spec fn lower_seq(s: Seq<char>) -> Seq<char> {
    s.map_values(|c: char| lower_char(c))
}

/// Folds one character to ASCII lower case.
fn lower_char_exec(c: char) -> (r: char)
    ensures
        r == lower_char(c),
{
    let u = c as u32;
    if 65 <= u && u <= 90 {
        ((u + 32) as u8) as char
    } else {
        c
    }
}

/// True when the characters of `s` from position `start` on, ASCII-lower-cased,
/// are exactly `pat`.
pub(crate) fn matches_lowered(s: &str, start: usize, pat: &str) -> (r: bool)
    requires
        start <= s@.len(),
    ensures
        r == (lower_seq(s@.subrange(start as int, s@.len() as int)) == pat@),
{
    let slen = s.unicode_len();
    let plen = pat.unicode_len();
    let n = slen - start;
    if n != plen {
        proof {
            assert(lower_seq(s@.subrange(start as int, s@.len() as int)).len() == n);
        }
        return false;
    }
    let mut i: usize = 0;
    while i < n
        invariant
            n == plen,
            start + n == slen,
            slen == s@.len(),
            plen == pat@.len(),
            i <= n,
            forall|k: int| 0 <= k < i ==> lower_char(s@[start + k]) == pat@[k],
        decreases n - i,
    {
        let c = s.get_char(start + i);
        let lc = lower_char_exec(c);
        let p = pat.get_char(i);
        if lc != p {
            proof {
                let sub = s@.subrange(start as int, s@.len() as int);
                assert(lower_seq(sub)[i as int] == lower_char(s@[start + i]));
            }
            return false;
        }
        i = i + 1;
    }
    proof {
        let sub = s@.subrange(start as int, s@.len() as int);
        assert(lower_seq(sub) =~= pat@);
    }
    true
}

/// The character for one decimal digit.
pub open spec fn digit_char(d: int) -> char {
    if d == 0 {
        '0'
    } else if d == 1 {
        '1'
    } else if d == 2 {
        '2'
    } else if d == 3 {
        '3'
    } else if d == 4 {
        '4'
    } else if d == 5 {
        '5'
    } else if d == 6 {
        '6'
    } else if d == 7 {
        '7'
    } else if d == 8 {
        '8'
    } else {
        '9'
    }
}

/// The usual decimal rendering of a non-negative integer, most significant
/// digit first, with no leading zeros (except for zero itself).
pub open spec fn spec_dec(n: int) -> Seq<char>
    decreases n,
{
    if n < 10 {
        seq![digit_char(n)]
    } else {
        spec_dec(n / 10) + seq![digit_char(n % 10)]
    }
}

fn digit_str(d: u64) -> (r: &'static str)
    requires
        d < 10,
    ensures
        r@ =~= seq![digit_char(d as int)],
{
    proof {
        reveal_strlit("0");
        reveal_strlit("1");
        reveal_strlit("2");
        reveal_strlit("3");
        reveal_strlit("4");
        reveal_strlit("5");
        reveal_strlit("6");
        reveal_strlit("7");
        reveal_strlit("8");
        reveal_strlit("9");
    }
    if d == 0 {
        "0"
    } else if d == 1 {
        "1"
    } else if d == 2 {
        "2"
    } else if d == 3 {
        "3"
    } else if d == 4 {
        "4"
    } else if d == 5 {
        "5"
    } else if d == 6 {
        "6"
    } else if d == 7 {
        "7"
    } else if d == 8 {
        "8"
    } else {
        "9"
    }
}

/// Renders a counter in decimal.
pub fn u64_to_dec(n: u64) -> (s: String)
    ensures
        s@ == spec_dec(n as int),
    decreases n,
{
    if n < 10 {
        String::from_str(digit_str(n))
    } else {
        let rest = u64_to_dec(n / 10);
        rest.concat(digit_str(n % 10))
    }
}

/// Joins a directory path and the name of one of its entries with a slash.
pub fn join_path(parent: &str, child: &str) -> (r: String)
    ensures
        r@ == parent@ + "/"@ + child@,
{
    let mut s = String::from_str(parent);
    s.append("/");
    s.append(child);
    s
}

/// The staging path an archive is written to before it is published: the
/// final path with a fixed suffix appended.
pub fn temp_path_for(target: &str) -> (r: String)
    ensures
        r@ == target@ + ".tmp"@,
{
    let mut s = String::from_str(target);
    s.append(".tmp");
    s
}

/// The staging path is never the final path itself, so writing to it cannot
/// touch whatever stands at the final path.
pub proof fn lemma_temp_path_differs(target: Seq<char>)
    ensures
        target + ".tmp"@ != target,
{
    reveal_strlit(".tmp");
    assert((target + ".tmp"@).len() == target.len() + 4);
}

/// The archive name tried for a leaf directory at a given collision counter:
/// the leaf's name with a `.zip` extension, or with `(n)` between stem and
/// extension once earlier candidates were taken.
pub open spec fn spec_candidate(stem: Seq<char>, counter: u64) -> Seq<char> {
    if counter == 0 {
        stem + ".zip"@
    } else {
        stem + "("@ + spec_dec(counter as int) + ")"@ + ".zip"@
    }
}

/// Builds the archive name for a leaf name stem and a collision counter.
pub fn zip_candidate_name(stem: &str, counter: u64) -> (r: String)
    ensures
        r@ == spec_candidate(stem@, counter),
{
    let mut s = String::from_str(stem);
    if counter == 0 {
        s.append(".zip");
        s
    } else {
        s.append("(");
        let digits = u64_to_dec(counter);
        s.append(digits.as_str());
        s.append(")");
        s.append(".zip");
        s
    }
}

/// A decimal rendering always holds at least one digit.
proof fn lemma_dec_nonempty(n: int)
    requires
        n >= 0,
    ensures
        spec_dec(n).len() >= 1,
        n < 10 <==> spec_dec(n).len() == 1,
    decreases n,
{
    if n >= 10 {
        lemma_dec_nonempty(n / 10);
    }
}

/// Each decimal digit has its own character.
proof fn lemma_digit_char_injective(a: int, b: int)
    requires
        0 <= a < 10,
        0 <= b < 10,
        digit_char(a) == digit_char(b),
    ensures
        a == b,
{
}

/// Distinct numbers have distinct decimal renderings.
proof fn lemma_dec_injective(m: int, n: int)
    requires
        m >= 0,
        n >= 0,
        spec_dec(m) == spec_dec(n),
    ensures
        m == n,
    decreases m,
{
    lemma_dec_nonempty(m);
    lemma_dec_nonempty(n);
    if m < 10 && n < 10 {
        assert(spec_dec(m)[0] == digit_char(m));
        assert(spec_dec(n)[0] == digit_char(n));
        lemma_digit_char_injective(m, n);
    } else if m >= 10 && n >= 10 {
        assert(spec_dec(m).last() == digit_char(m % 10));
        assert(spec_dec(n).last() == digit_char(n % 10));
        lemma_digit_char_injective(m % 10, n % 10);
        assert(spec_dec(m).drop_last() =~= spec_dec(m / 10));
        assert(spec_dec(n).drop_last() =~= spec_dec(n / 10));
        lemma_dec_injective(m / 10, n / 10);
    }
}

/// Distinct collision counters always give distinct candidate names, so
/// walking the counters can never try one name twice.
pub proof fn lemma_candidate_names_distinct(stem: Seq<char>, m: u64, n: u64)
    requires
        m != n,
    ensures
        spec_candidate(stem, m) != spec_candidate(stem, n),
{
    reveal_strlit("(");
    reveal_strlit(")");
    reveal_strlit(".zip");
    if m == 0 || n == 0 {
        let k = if m == 0 { n } else { m };
        lemma_dec_nonempty(k as int);
        assert(spec_candidate(stem, 0).len() == stem.len() + 4);
        assert(spec_candidate(stem, k).len() == stem.len() + 6 + spec_dec(k as int).len());
    } else {
        if spec_candidate(stem, m) == spec_candidate(stem, n) {
            lemma_dec_nonempty(m as int);
            lemma_dec_nonempty(n as int);
            let dm = spec_dec(m as int);
            let dn = spec_dec(n as int);
            assert(spec_candidate(stem, m).len() == stem.len() + 6 + dm.len());
            assert(spec_candidate(stem, n).len() == stem.len() + 6 + dn.len());
            assert(dm.len() == dn.len());
            assert forall|i: int| 0 <= i < dm.len() implies dm[i] == dn[i] by {
                assert(spec_candidate(stem, m)[stem.len() + 1 + i] == dm[i]);
                assert(spec_candidate(stem, n)[stem.len() + 1 + i] == dn[i]);
            }
            assert(dm =~= dn);
            lemma_dec_injective(m as int, n as int);
        }
    }
}


/// Whether one of the given strings is exactly `s`.
fn contains_string(v: &Vec<String>, s: &String) -> (r: bool)
    ensures
        r == v.deep_view().contains(s@),
{
    let mut i: usize = 0;
    while i < v.len()
        invariant
            i <= v@.len(),
            forall|k: int| 0 <= k < i ==> v@[k]@ != s@,
        decreases v@.len() - i,
    {
        if v[i].eq(s) {
            proof {
                assert(v.deep_view()[i as int] == s@);
            }
            return true;
        }
        i = i + 1;
    }
    proof {
        assert forall|k: int| 0 <= k < v.deep_view().len() implies v.deep_view()[k] != s@ by {
            assert(v.deep_view()[k] == v@[k]@);
        }
        assert(!v.deep_view().contains(s@));
    }
    false
}

/// Resolves the archive name for a leaf against the names already present in
/// its parent directory: the candidate with the smallest collision counter
/// whose name is not among them. Since distinct counters give distinct names,
/// trying one more candidate than there are names present must find a free
/// one; the scan is bounded accordingly, and if every bounded candidate were
/// taken the function would say so rather than choose — a case that cannot
/// arise, as `lemma_resolver_always_finds` proves.
pub fn resolve_archive_name(stem: &str, taken: &Vec<String>) -> (r: Option<(u64, String)>)
    requires
        taken@.len() < u64::MAX,
    ensures
        match r {
            Some(p) => {
                &&& p.0 <= taken@.len()
                &&& p.1@ == spec_candidate(stem@, p.0)
                &&& !taken.deep_view().contains(spec_candidate(stem@, p.0))
                &&& forall|c: u64|
                    c < p.0 ==> taken.deep_view().contains(#[trigger] spec_candidate(stem@, c))
            },
            None => forall|c: u64|
                c <= taken@.len() ==> taken.deep_view().contains(
                    #[trigger] spec_candidate(stem@, c),
                ),
        },
{
    let bound: u64 = taken.len() as u64;
    let mut c: u64 = 0;
    while c <= bound
        invariant
            taken@.len() < u64::MAX,
            bound == taken@.len(),
            c <= bound + 1,
            forall|k: u64| k < c ==> taken.deep_view().contains(#[trigger] spec_candidate(stem@, k)),
        decreases bound + 1 - c,
    {
        let name = zip_candidate_name(stem, c);
        if !contains_string(taken, &name) {
            return Some((c, name));
        }
        c = c + 1;
    }
    None
}


/// The resolver's bounded scan always succeeds: the candidates for the
/// counters up to the number of names present are pairwise distinct, so they
/// cannot all be among those names — at least one of them is free.
pub proof fn lemma_resolver_always_finds(stem: Seq<char>, taken: Seq<Seq<char>>)
    requires
        taken.len() < u64::MAX,
    ensures
        exists|c: u64| c <= taken.len() && !taken.contains(#[trigger] spec_candidate(stem, c)),
{
    let n = taken.len() as int;
    if forall|c: u64| c <= taken.len() ==> taken.contains(#[trigger] spec_candidate(stem, c)) {
        let cands = Seq::new((n + 1) as nat, |c: int| spec_candidate(stem, c as u64));
        assert forall|i: int, j: int|
            0 <= i < cands.len() && 0 <= j < cands.len() && i != j implies cands[i]
            != cands[j] by {
            lemma_candidate_names_distinct(stem, i as u64, j as u64);
        }
        assert(cands.no_duplicates());
        cands.unique_seq_to_set();
        taken.lemma_cardinality_of_set();
        assert forall|x: Seq<char>| cands.to_set().contains(x) implies taken.to_set().contains(
            x,
        ) by {
            let k = choose|k: int| 0 <= k < cands.len() && cands[k] == x;
            assert(taken.contains(spec_candidate(stem, k as u64)));
        }
        assert(cands.to_set().subset_of(taken.to_set()));
        vstd::seq_lib::seq_to_set_is_finite(taken);
        vstd::set_lib::lemma_len_subset(cands.to_set(), taken.to_set());
        assert(false);
    }
}

} // verus!
