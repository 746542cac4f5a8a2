//! The reduced formula of a list of element symbols: each element with its
//! count, carbon first, hydrogen last, the others in order of appearance.
use vstd::prelude::*;
use vstd::string::StringExecFns;
use crate::text::{to_chars, chars_eq};

verus! {

/// How many of the first `n` symbols are `s`.
pub open spec fn count_in(syms: Seq<Seq<char>>, n: int, s: Seq<char>) -> nat
    decreases n,
{
    if n <= 0 {
        0
    } else {
        count_in(syms, n - 1, s) + if syms[n - 1] == s {
            1nat
        } else {
            0nat
        }
    }
}

/// The distinct symbols among the first `n`, in order of first appearance.
pub open spec fn firsts(syms: Seq<Seq<char>>, n: int) -> Seq<Seq<char>>
    decreases n,
{
    if n <= 0 {
        Seq::empty()
    } else if firsts(syms, n - 1).contains(syms[n - 1]) {
        firsts(syms, n - 1)
    } else {
        firsts(syms, n - 1).push(syms[n - 1])
    }
}

pub open spec fn digit_char(d: nat) -> char {
    if d == 0 {
        '0'
    } else if d == 1 {
        '1'
    } else if d == 2 {
        '2'
    } else if d == 3 {
        '3'
    } else if d == 4 {
        '4'
    } else if d == 5 {
        '5'
    } else if d == 6 {
        '6'
    } else if d == 7 {
        '7'
    } else if d == 8 {
        '8'
    } else {
        '9'
    }
}

/// The decimal digits of `n`.
pub open spec fn decimal(n: nat) -> Seq<char>
    decreases n,
{
    if n < 10 {
        seq![digit_char(n)]
    } else {
        decimal(n / 10).push(digit_char(n % 10))
    }
}

/// The symbols among `ds[..k]` other than carbon and hydrogen, each followed
/// by its count.
pub open spec fn others_text(syms: Seq<Seq<char>>, ds: Seq<Seq<char>>, k: int) -> Seq<char>
    decreases k,
{
    if k <= 0 {
        Seq::empty()
    } else {
        let s = ds[k - 1];
        others_text(syms, ds, k - 1) + if s == seq!['C'] || s == seq!['H'] {
            Seq::empty()
        } else {
            s + decimal(count_in(syms, syms.len() as int, s))
        }
    }
}

/// The reduced formula: `C` with its count if present, then the others in
/// order of first appearance, then `H` with its count if present.
pub open spec fn formula(syms: Seq<Seq<char>>) -> Seq<char> {
    let n = syms.len() as int;
    let ds = firsts(syms, n);
    let c = seq!['C'];
    let h = seq!['H'];
    (if ds.contains(c) {
        c + decimal(count_in(syms, n, c))
    } else {
        Seq::empty()
    }) + others_text(syms, ds, ds.len() as int) + (if ds.contains(h) {
        h + decimal(count_in(syms, n, h))
    } else {
        Seq::empty()
    })
}

fn digit_str(d: usize) -> (r: &'static str)
    requires
        d < 10,
    ensures
        r@ == seq![digit_char(d as nat)],
{
    proof {
        reveal_strlit("0");
        reveal_strlit("1");
        reveal_strlit("2");
        reveal_strlit("3");
        reveal_strlit("4");
        reveal_strlit("5");
        reveal_strlit("6");
        reveal_strlit("7");
        reveal_strlit("8");
        reveal_strlit("9");
    }
    if d == 0 {
        "0"
    } else if d == 1 {
        "1"
    } else if d == 2 {
        "2"
    } else if d == 3 {
        "3"
    } else if d == 4 {
        "4"
    } else if d == 5 {
        "5"
    } else if d == 6 {
        "6"
    } else if d == 7 {
        "7"
    } else if d == 8 {
        "8"
    } else {
        "9"
    }
}

/// `s` followed by the decimal digits of `n`.
pub fn push_decimal(s: String, n: usize) -> (r: String)
    ensures
        r@ == s@ + decimal(n as nat),
    decreases n,
{
    if n < 10 {
        s.concat(digit_str(n))
    } else {
        let t = push_decimal(s, n / 10);
        let r = t.concat(digit_str(n % 10));
        assert(r@ =~= s@ + decimal(n as nat));
        r
    }
}

proof fn lemma_count_absent(syms: Seq<Seq<char>>, n: int, s: Seq<char>)
    requires
        0 <= n <= syms.len(),
        !firsts(syms, n).contains(s),
    ensures
        count_in(syms, n, s) == 0,
        forall|i: int| 0 <= i < n ==> syms[i] != s,
    decreases n,
{
    if n > 0 {
        if firsts(syms, n - 1).contains(syms[n - 1]) {
            lemma_count_absent(syms, n - 1, s);
            lemma_firsts_members(syms, n - 1);
        } else {
            assert(firsts(syms, n) == firsts(syms, n - 1).push(syms[n - 1]));
            assert(firsts(syms, n)[firsts(syms, n - 1).len() as int] == syms[n - 1]);
            if firsts(syms, n - 1).contains(s) {
                let j = choose|j: int| 0 <= j < firsts(syms, n - 1).len() && #[trigger] firsts(syms, n - 1)[j] == s;
                assert(firsts(syms, n)[j] == s);
            }
            lemma_count_absent(syms, n - 1, s);
        }
    }
}

proof fn lemma_firsts_members(syms: Seq<Seq<char>>, n: int)
    requires
        0 <= n <= syms.len(),
    ensures
        forall|i: int| 0 <= i < n ==> firsts(syms, n).contains(#[trigger] syms[i]),
    decreases n,
{
    if n > 0 {
        lemma_firsts_members(syms, n - 1);
        let f = firsts(syms, n - 1);
        if !f.contains(syms[n - 1]) {
            assert(firsts(syms, n)[f.len() as int] == syms[n - 1]);
            assert forall|i: int| 0 <= i < n implies firsts(syms, n).contains(#[trigger] syms[i]) by {
                if i < n - 1 {
                    let j = choose|j: int| 0 <= j < f.len() && #[trigger] f[j] == syms[i];
                    assert(firsts(syms, n)[j] == syms[i]);
                }
            }
        }
    }
}


proof fn lemma_firsts_distinct(syms: Seq<Seq<char>>, n: int)
    requires
        0 <= n <= syms.len(),
    ensures
        firsts(syms, n).no_duplicates(),
    decreases n,
{
    if n > 0 {
        lemma_firsts_distinct(syms, n - 1);
    }
}

/// Whether `t` is the one-letter symbol `c`.
fn is_symbol(t: &str, c: char) -> (r: bool)
    ensures
        r == (t@ == seq![c]),
{
    let tc = to_chars(t);
    if tc.len() == 1 && tc[0] == c {
        assert(tc@ =~= seq![c]);
        true
    } else {
        assert(tc@ != seq![c]) by {
            if tc@ == seq![c] {
                assert(tc@.len() == 1 && tc@[0] == c);
            }
        }
        false
    }
}

/// The reduced formula of `symbols`: each element followed by its count,
/// carbon first, hydrogen last, the others in order of first appearance
/// (`["C", "H", "C", "H", "H", "H"]` gives `"C2H4"`).
pub fn get_reduced_formula(symbols: &[&str]) -> (r: String)
    ensures
        r@ == formula(symbols@.map_values(|s: &str| s@)),
{
    let ghost syms = symbols@.map_values(|s: &str| s@);
    let n = symbols.len();
    let mut first: Vec<usize> = Vec::new();
    let mut counts: Vec<usize> = Vec::new();
    let mut i: usize = 0;
    while i < n
        invariant
            n == symbols@.len(),
            syms == symbols@.map_values(|s: &str| s@),
            i <= n,
            first@.len() == counts@.len(),
            forall|j: int| 0 <= j < first@.len() ==> (#[trigger] first@[j]) < i,
            firsts(syms, i as int) == first@.map_values(|f: usize| syms[f as int]),
            forall|j: int|
                0 <= j < first@.len() ==> (#[trigger] counts@[j]) as nat == count_in(
                    syms,
                    i as int,
                    syms[first@[j] as int],
                ) && counts@[j] <= i,
        decreases n - i,
    {
        let c = to_chars(symbols[i]);
        let mut j: usize = 0;
        let mut found: Option<usize> = None;
        while j < first.len()
            invariant
                n == symbols@.len(),
                syms == symbols@.map_values(|s: &str| s@),
                i < n,
                c@ == syms[i as int],
                j <= first@.len(),
                forall|q: int| 0 <= q < first@.len() ==> (#[trigger] first@[q]) < i,
                found matches Some(x) ==> x < first@.len() && syms[first@[x as int] as int] == syms[i as int],
                found is None ==> forall|q: int| 0 <= q < j ==> syms[(#[trigger] first@[q]) as int] != syms[i as int],
            decreases first@.len() - j,
        {
            if found.is_none() {
                let d = to_chars(symbols[first[j]]);
                if chars_eq(&d, &c) {
                    found = Some(j);
                }
            }
            j = j + 1;
        }
        proof {
            lemma_firsts_distinct(syms, i as int);
        }
        match found {
            Some(j) => {
                let ghost fv = first@.map_values(|f: usize| syms[f as int]);
                assert(fv[j as int] == syms[i as int]);
                assert(firsts(syms, i as int).contains(syms[i as int]));
                assert(firsts(syms, i + 1) == firsts(syms, i as int));
                let v = counts[j] + 1;
                counts.set(j, v);
                assert forall|q: int| 0 <= q < first@.len() implies (#[trigger] counts@[q]) as nat == count_in(
                    syms,
                    i + 1,
                    syms[first@[q] as int],
                ) && counts@[q] <= i + 1 by {
                    if q != j {
                        assert(fv[q] != fv[j as int]);
                    }
                }
            },
            None => {
                let ghost fv = first@.map_values(|f: usize| syms[f as int]);
                assert(!firsts(syms, i as int).contains(syms[i as int])) by {
                    if firsts(syms, i as int).contains(syms[i as int]) {
                        let q = choose|q: int| 0 <= q < fv.len() && #[trigger] fv[q] == syms[i as int];
                        assert(syms[first@[q] as int] != syms[i as int]);
                    }
                }
                proof {
                    lemma_count_absent(syms, i as int, syms[i as int]);
                }
                first.push(i);
                counts.push(1);
                assert(first@.map_values(|f: usize| syms[f as int]) =~= fv.push(syms[i as int]));
                assert forall|q: int| 0 <= q < first@.len() implies (#[trigger] counts@[q]) as nat == count_in(
                    syms,
                    i + 1,
                    syms[first@[q] as int],
                ) && counts@[q] <= i + 1 by {
                    if q < first@.len() - 1 {
                        assert(fv[q] != syms[i as int]) by {
                            assert(firsts(syms, i as int)[q] == fv[q]);
                        }
                    }
                }
            },
        }
        i = i + 1;
    }
    let ghost ds = firsts(syms, n as int);
    assert(ds =~= first@.map_values(|f: usize| syms[f as int]));
    let m = first.len();
    let mut out = String::new();
    let mut k: usize = 0;
    let mut hcount: Option<usize> = None;
    let mut ccount: Option<usize> = None;
    while k < m
        invariant
            n == symbols@.len(),
            syms == symbols@.map_values(|s: &str| s@),
            m == first@.len(),
            first@.len() == counts@.len(),
            ds == first@.map_values(|f: usize| syms[f as int]),
            forall|j: int| 0 <= j < first@.len() ==> (#[trigger] first@[j]) < n,
            forall|j: int|
                0 <= j < first@.len() ==> (#[trigger] counts@[j]) as nat == count_in(
                    syms,
                    n as int,
                    syms[first@[j] as int],
                ),
            k <= m,
            out@ == others_text(syms, ds, k as int),
            match ccount {
                Some(x) => ds.take(k as int).contains(seq!['C']) && x as nat == count_in(syms, n as int, seq!['C']),
                None => !ds.take(k as int).contains(seq!['C']),
            },
            match hcount {
                Some(x) => ds.take(k as int).contains(seq!['H']) && x as nat == count_in(syms, n as int, seq!['H']),
                None => !ds.take(k as int).contains(seq!['H']),
            },
        decreases m - k,
    {
        let t = symbols[first[k]];
        let isc = is_symbol(t, 'C');
        let ish = is_symbol(t, 'H');
        let ghost tk = ds[k as int];
        assert(t@ == tk);
        if isc {
            ccount = Some(counts[k]);
        } else if ish {
            assert(t@ == syms[first@[k as int] as int]);
            assert(counts@[k as int] as nat == count_in(syms, n as int, seq!['H']));
            hcount = Some(counts[k]);
        } else {
            out = push_decimal(out.concat(t), counts[k]);
        }
        proof {
            assert(ds.take(k + 1) =~= ds.take(k as int).push(tk));
            assert(ds.take(k + 1)[k as int] == tk);
            assert(ds.take(k + 1).contains(tk));
            if ish && !isc {
                assert(tk == seq!['H']);
                assert(ds.take(k + 1).contains(seq!['H']));
            }
            if isc {
                assert(tk == seq!['C']);
                assert(ds.take(k + 1).contains(seq!['C']));
                assert(seq!['C'] != seq!['H']) by {
                    assert(seq!['C'][0] != seq!['H'][0]);
                }
            }
            if !ccount.is_some() {
                if ds.take(k + 1).contains(seq!['C']) {
                    let q = choose|q: int| 0 <= q < k + 1 && #[trigger] ds.take(k + 1)[q] == seq!['C'];
                    if q < k {
                        assert(ds.take(k as int)[q] == seq!['C']);
                    }
                }
            }
            if !hcount.is_some() {
                if ds.take(k + 1).contains(seq!['H']) {
                    let q = choose|q: int| 0 <= q < k + 1 && #[trigger] ds.take(k + 1)[q] == seq!['H'];
                    if q < k {
                        assert(ds.take(k as int)[q] == seq!['H']);
                    }
                }
            }
            if ccount.is_some() && !isc {
                let q = choose|q: int| 0 <= q < k && #[trigger] ds.take(k as int)[q] == seq!['C'];
                assert(ds.take(k + 1)[q] == seq!['C']);
            }
            if hcount.is_some() && !ish {
                let q = choose|q: int| 0 <= q < k && #[trigger] ds.take(k as int)[q] == seq!['H'];
                assert(ds.take(k + 1)[q] == seq!['H']);
            }
        }
        k = k + 1;
    }
    assert(ds.take(m as int) =~= ds);
    let mut r = String::new();
    match ccount {
        Some(x) => {
            r = push_decimal(r.concat("C"), x);
        },
        None => {},
    }
    r = r.concat(out.as_str());
    match hcount {
        Some(x) => {
            r = push_decimal(r.concat("H"), x);
        },
        None => {},
    }
    proof {
        reveal_strlit("C");
        reveal_strlit("H");
    }
    assert(r@ =~= formula(syms));
    r
}

} // verus!
