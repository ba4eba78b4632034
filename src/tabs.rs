use vstd::prelude::*;
use vstd::std_specs::iter::IteratorSpec;

use crate::width::{char_width, cols, lemma_cols_concat, lemma_cols_push, push_char};

verus! {

/// `n` spaces.
pub open spec fn spaces(n: nat) -> Seq<char> {
    Seq::new(n, |i: int| ' ')
}

/// `s` with each tab replaced by the spaces that carry the column of the
/// text produced so far up to the next multiple of `tab_width`.
pub open spec fn expand_spec(s: Seq<char>, tab_width: nat) -> Seq<char>
    decreases s.len(),
{
    if s.len() == 0 {
        Seq::empty()
    } else {
        let head = expand_spec(s.drop_last(), tab_width);
        if s.last() == '\t' {
            head + spaces((tab_width - (cols(head) as int) % (tab_width as int)) as nat)
        } else {
            head.push(s.last())
        }
    }
}

/// What `expand_tabs` makes of a line: the line itself where the tab width
/// is zero.
pub open spec fn expanded(s: Seq<char>, tab_width: nat) -> Seq<char> {
    if tab_width == 0 {
        s
    } else {
        expand_spec(s, tab_width)
    }
}

pub proof fn lemma_cols_spaces(n: nat)
    ensures
        cols(spaces(n)) == n,
    decreases n,
{
    if n > 0 {
        lemma_cols_spaces((n - 1) as nat);
        assert(spaces(n).drop_last() =~= spaces((n - 1) as nat));
    }
}

/// With a tab width above zero, the text made of a line up to and including
/// one of its tabs ends on a tab stop: its columns are a multiple of the tab
/// width.
pub proof fn lemma_tab_ends_on_stop(s: Seq<char>, tab_width: nat, i: int)
    requires
        tab_width > 0,
        0 <= i < s.len(),
        s[i] == '\t',
    ensures
        (cols(expanded(s.take(i + 1), tab_width)) as int) % (tab_width as int) == 0,
{
    let p = s.take(i + 1);
    let head = expand_spec(p.drop_last(), tab_width);
    let k = (tab_width - (cols(head) as int) % (tab_width as int)) as nat;
    lemma_cols_concat(head, spaces(k));
    lemma_cols_spaces(k);
    lemma_tab_stop(cols(head) as int, tab_width as int);
}

/// A line without tabs comes out of the expansion unchanged, whatever the
/// tab width.
pub proof fn lemma_no_tabs_unchanged(s: Seq<char>, tab_width: nat)
    requires
        forall|i: int| 0 <= i < s.len() ==> s[i] != '\t',
    ensures
        expanded(s, tab_width) == s,
    decreases s.len(),
{
    if tab_width > 0 && s.len() > 0 {
        lemma_no_tabs_unchanged(s.drop_last(), tab_width);
        assert(s.drop_last().push(s.last()) =~= s);
    }
}

/// A tab width of zero leaves every line unchanged, tabs included.
pub proof fn lemma_zero_width_unchanged(s: Seq<char>)
    ensures
        expanded(s, 0) == s,
{
}

/// Replaces each tab of `line` by spaces up to the next tab stop, counting
/// columns by display width; a tab width of zero leaves the line as it is.
pub fn expand_tabs(line: &str, tab_width: usize) -> (r: String)
    ensures
        r@ == expanded(line@, tab_width as nat),
{
    let mut out = String::new();
    if tab_width == 0 {
        out.append(line);
        return out;
    }
    let mut it = line.chars();
    let ghost all = line@;
    let ghost mut n: int = 0;
    // the column of `out`, modulo the tab width
    let mut col: usize = 0;
    proof {
        vstd::string::axiom_spec_iter(line);
        assert(all.take(0) =~= Seq::<char>::empty());
        assert(out@ =~= Seq::<char>::empty());
        vstd::arithmetic::div_mod::lemma_small_mod(0, tab_width as nat);
    }
    loop
        invariant
            all == line@,
            tab_width > 0,
            0 <= n <= all.len(),
            it.remaining() == all.skip(n),
            out@ == expand_spec(all.take(n), tab_width as nat),
            col == (cols(out@) as int) % (tab_width as int),
        decreases all.len() - n,
    {
        match it.next() {
            None => {
                proof {
                    broadcast use vstd::string::next_postcondition;
                    assert(all.take(n) =~= all);
                }
                return out;
            },
            Some(c) => {
                let ghost head = out@;
                proof {
                    broadcast use vstd::string::next_postcondition;
                    assert(all.skip(n)[0] == all[n]);
                    assert(all.take(n + 1).drop_last() =~= all.take(n));
                    assert(all.skip(n).drop_first() =~= all.skip(n + 1));
                }
                if c == '\t' {
                    let k: usize = tab_width - col;
                    let mut i: usize = 0;
                    while i < k
                        invariant
                            i <= k,
                            out@ == head + spaces(i as nat),
                        decreases k - i,
                    {
                        push_char(&mut out, ' ');
                        assert(head + spaces((i + 1) as nat) =~= (head + spaces(i as nat)).push(' '));
                        i = i + 1;
                    }
                    col = 0;
                    proof {
                        lemma_cols_concat(head, spaces(k as nat));
                        lemma_cols_spaces(k as nat);
                        lemma_tab_stop(cols(head) as int, tab_width as int);
                    }
                } else {
                    let w: usize = match char_width(c) {
                        Some(w) => w,
                        None => 0,
                    };
                    push_char(&mut out, c);
                    proof {
                        lemma_cols_push(head, c);
                    }
                    col = add_mod(col, w, tab_width);
                    proof {
                        let x = cols(head) as int;
                        let t = tab_width as int;
                        vstd::arithmetic::div_mod::lemma_add_mod_noop(x, w as int, t);
                        vstd::arithmetic::div_mod::lemma_add_mod_noop(x % t, w as int, t);
                        vstd::arithmetic::div_mod::lemma_mod_twice(x, t);
                    }
                }
                proof {
                    n = n + 1;
                }
            },
        }
    }
}

/// Moving from column `c` to the next tab stop lands on a multiple of `t`.
proof fn lemma_tab_stop(c: int, t: int)
    requires
        c >= 0,
        t > 0,
    ensures
        (c + (t - c % t)) % t == 0,
{
    vstd::arithmetic::div_mod::lemma_fundamental_div_mod(c, t);
    let q = c / t;
    assert(c + (t - c % t) == t * (q + 1)) by (nonlinear_arith)
        requires
            c == t * q + c % t,
    ;
    vstd::arithmetic::div_mod::lemma_mod_multiples_basic(q + 1, t);
    assert(t * (q + 1) == (q + 1) * t) by (nonlinear_arith);
}

/// `(a + b) % m` for `a < m`, without overflow.
fn add_mod(a: usize, b: usize, m: usize) -> (r: usize)
    requires
        m > 0,
        a < m,
    ensures
        r == (a + b) % (m as int),
{
    let b2: usize = b % m;
    proof {
        vstd::arithmetic::div_mod::lemma_add_mod_noop(a as int, b as int, m as int);
        vstd::arithmetic::div_mod::lemma_mod_twice(a as int, m as int);
        vstd::arithmetic::div_mod::lemma_small_mod(a as nat, m as nat);
    }
    if b2 >= m - a {
        let r: usize = b2 - (m - a);
        proof {
            vstd::arithmetic::div_mod::lemma_sub_mod_noop_right((a + b2) as int, m as int, m as int);
            vstd::arithmetic::div_mod::lemma_small_mod(r as nat, m as nat);
            vstd::arithmetic::div_mod::lemma_mod_self_0(m as int);
        }
        r
    } else {
        proof {
            vstd::arithmetic::div_mod::lemma_small_mod((a + b2) as nat, m as nat);
        }
        a + b2
    }
}

} // verus!
