use unicode_width::UnicodeWidthChar;
use unicode_width::UnicodeWidthStr;
use vstd::prelude::*;
use vstd::std_specs::iter::IteratorSpec;

verus! {

/// The display width that the Unicode width tables give a character past
/// the ASCII and C1 control range.
pub uninterp spec fn table_cols(c: char) -> Option<usize>;

/// The display width of one character, `None` for a control character:
/// printable ASCII is one column wide, the rest is looked up.
pub open spec fn char_cols(c: char) -> Option<usize> {
    let u = c as u32;
    if u < 0x20 || (0x7f <= u && u < 0xa0) {
        None
    } else if u < 0x7f {
        Some(1usize)
    } else {
        table_cols(c)
    }
}

/// The display width that the Unicode width tables give a whole string.
pub uninterp spec fn str_cols(s: Seq<char>) -> usize;

/// Relies on `UnicodeWidthChar::width`: printable ASCII is one column wide,
/// the C0 and C1 controls have no width, and no character is wider than
/// three columns.
#[verifier::external_body]
pub(crate) fn char_width(c: char) -> (r: Option<usize>)
    ensures
        r == char_cols(c),
        c as u32 >= 0xa0 ==> r == table_cols(c),
        r matches Some(w) ==> w <= 3,
{
    c.width()
}

/// Relies on `UnicodeWidthStr::width`: the display width of a string; a
/// string of printable ASCII is as wide as it is long.
#[verifier::external_body]
pub(crate) fn text_width(s: &str) -> (r: usize)
    ensures
        r == str_cols(s@),
        (forall|i: int| 0 <= i < s@.len() ==> 0x20 <= (#[trigger] s@[i]) as u32 && (s@[i] as u32) < 0x7f)
            ==> r == s@.len(),
{
    s.width()
}

/// Relies on `String::push`: appends one character.
#[verifier::external_body]
pub(crate) fn push_char(s: &mut String, c: char)
    ensures
        final(s)@ == old(s)@.push(c),
{
    s.push(c)
}

/// Columns that one character takes; one without a width takes none.
pub open spec fn cw(c: char) -> nat {
    match char_cols(c) {
        Some(w) => w as nat,
        None => 0,
    }
}

/// Columns that a run of characters takes, each counted on its own.
pub open spec fn cols(s: Seq<char>) -> nat
    decreases s.len(),
{
    if s.len() == 0 {
        0
    } else {
        cols(s.drop_last()) + cw(s.last())
    }
}

/// The longest prefix of `s` whose columns fit in `budget`.
pub open spec fn fits(s: Seq<char>, n: int, budget: nat) -> bool {
    &&& 0 <= n <= s.len()
    &&& cols(s.take(n)) <= budget
    &&& (n < s.len() ==> cols(s.take(n + 1)) > budget)
}

pub proof fn lemma_cols_push(s: Seq<char>, c: char)
    ensures
        cols(s.push(c)) == cols(s) + cw(c),
{
    assert(s.push(c).drop_last() =~= s);
}

pub proof fn lemma_cols_concat(a: Seq<char>, b: Seq<char>)
    ensures
        cols(a + b) == cols(a) + cols(b),
    decreases b.len(),
{
    if b.len() == 0 {
        assert(a + b =~= a);
    } else {
        lemma_cols_concat(a, b.drop_last());
        assert((a + b).drop_last() =~= a + b.drop_last());
    }
}

pub proof fn lemma_cols_monotone(s: Seq<char>, i: int, j: int)
    requires
        0 <= i <= j <= s.len(),
    ensures
        cols(s.take(i)) <= cols(s.take(j)),
    decreases j - i,
{
    if i < j {
        lemma_cols_monotone(s, i, j - 1);
        assert(s.take(j).drop_last() =~= s.take(j - 1));
    }
}

/// Every prefix longer than the one that `fits` is over the budget, and no
/// prefix that fits is longer.
pub proof fn lemma_fits_is_longest(s: Seq<char>, n: int, budget: nat, m: int)
    requires
        fits(s, n, budget),
        n < m <= s.len(),
    ensures
        cols(s.take(m)) > budget,
{
    lemma_cols_monotone(s, n + 1, m);
}

/// The prefix of `s` that fits in `budget`.
pub open spec fn fit_prefix(s: Seq<char>, budget: nat) -> Seq<char> {
    s.take(choose|n: int| fits(s, n, budget))
}

/// Some prefix of every run fits any budget.
pub proof fn lemma_fits_exists(s: Seq<char>, budget: nat)
    ensures
        exists|n: int| fits(s, n, budget),
    decreases s.len(),
{
    if cols(s) <= budget {
        assert(s.take(s.len() as int) =~= s);
        assert(fits(s, s.len() as int, budget));
    } else {
        lemma_fits_exists(s.drop_last(), budget);
        let d = s.drop_last();
        let n = choose|n: int| fits(d, n, budget);
        assert(d.take(n) =~= s.take(n));
        if n < d.len() {
            assert(d.take(n + 1) =~= s.take(n + 1));
            assert(fits(s, n, budget));
        } else {
            assert(s.take(n + 1) =~= s);
            assert(fits(s, n, budget));
        }
    }
}

/// At most one prefix length fits a budget.
pub proof fn lemma_fits_unique(s: Seq<char>, budget: nat, n: int, m: int)
    requires
        fits(s, n, budget),
        fits(s, m, budget),
    ensures
        n == m,
{
    if n < m {
        lemma_fits_is_longest(s, n, budget, m);
    } else if m < n {
        lemma_fits_is_longest(s, m, budget, n);
    }
}

/// The prefix that fits takes no more columns than the budget, and is the
/// one that `fits`.
pub proof fn lemma_fit_prefix(s: Seq<char>, budget: nat)
    ensures
        cols(fit_prefix(s, budget)) <= budget,
        fits(s, fit_prefix(s, budget).len() as int, budget),
        fit_prefix(s, budget) == s.take(fit_prefix(s, budget).len() as int),
{
    lemma_fits_exists(s, budget);
}

/// The longest prefix of `text` that takes at most `budget` columns, with no
/// character split.
pub fn truncate_to_width(text: &str, budget: usize) -> (r: String)
    ensures
        r@.len() <= text@.len(),
        r@ == text@.take(r@.len() as int),
        fits(text@, r@.len() as int, budget as nat),
        r@ == fit_prefix(text@, budget as nat),
{
    let mut out = String::new();
    let mut it = text.chars();
    let ghost all = text@;
    let mut used: usize = 0;
    let ghost mut n: int = 0;
    proof {
        vstd::string::axiom_spec_iter(text);
    }
    loop
        invariant
            all == text@,
            0 <= n <= all.len(),
            it.remaining() == all.skip(n),
            out@ == all.take(n),
            used == cols(all.take(n)),
            used <= budget,
        decreases all.len() - n,
    {
        let ghost before = it;
        match it.next() {
            None => {
                proof {
                    assert(all.skip(n).len() == 0);
                    assert(all.take(n) =~= all);
                    lemma_fits_exists(all, budget as nat);
                    let m = choose|m: int| fits(all, m, budget as nat);
                    lemma_fits_unique(all, budget as nat, n, m);
                }
                return out;
            },
            Some(c) => {
                proof {
                    broadcast use vstd::string::next_postcondition;
                    assert(all.skip(n)[0] == all[n]);
                    assert(all.take(n + 1) =~= all.take(n).push(c));
                    lemma_cols_push(all.take(n), c);
                    assert(all.skip(n).drop_first() =~= all.skip(n + 1));
                }
                let w: usize = match char_width(c) {
                    Some(w) => w,
                    None => 0,
                };
                if w > budget - used {
                    proof {
                        lemma_fits_exists(all, budget as nat);
                        let m = choose|m: int| fits(all, m, budget as nat);
                        lemma_fits_unique(all, budget as nat, n, m);
                    }
                    return out;
                }
                used = used + w;
                push_char(&mut out, c);
                proof {
                    n = n + 1;
                }
            },
        }
    }
}

} // verus!
