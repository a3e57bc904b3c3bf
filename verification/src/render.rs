//! Rendering of versions and requirements into the textual forms the build
//! tool takes on its command line (`1.2.3-alpha.1`, `^1`, `>=1.0.0, <=1.2.0`,
//! `name@=1.2.3`).
use vstd::prelude::*;
use vstd::string::StrSliceExecFns;

use crate::requirement::{ComparatorView, Op, VersionReq};
use crate::version::{PreIdent, PreIdentView, Version, VersionView};

verus! {

/// The character for one decimal digit.
pub open spec fn digit_char(d: int) -> char {
    if d == 0 {
        '0'
    } else if d == 1 {
        '1'
    } else if d == 2 {
        '2'
    } else if d == 3 {
        '3'
    } else if d == 4 {
        '4'
    } else if d == 5 {
        '5'
    } else if d == 6 {
        '6'
    } else if d == 7 {
        '7'
    } else if d == 8 {
        '8'
    } else {
        '9'
    }
}

/// The usual decimal rendering of a non-negative integer, without leading
/// zeros.
pub open spec fn dec_chars(n: int) -> Seq<char>
    decreases n,
{
    if n < 10 {
        seq![digit_char(n)]
    } else {
        dec_chars(n / 10).push(digit_char(n % 10))
    }
}

/// The rendering of one pre-release identifier.
pub open spec fn ident_chars(p: PreIdentView) -> Seq<char> {
    match p {
        PreIdentView::Num(n) => dec_chars(n),
        PreIdentView::Txt(s) => s,
    }
}

/// The rendering of a pre-release tag: its identifiers joined with dots.
pub open spec fn pre_chars(pre: Seq<PreIdentView>) -> Seq<char>
    decreases pre.len(),
{
    if pre.len() == 0 {
        Seq::<char>::empty()
    } else if pre.len() == 1 {
        ident_chars(pre[0])
    } else {
        pre_chars(pre.drop_last()) + seq!['.'] + ident_chars(pre.last())
    }
}

/// The rendering of a full version: the dotted triple, then `-tag` when a
/// pre-release tag is present.
pub open spec fn version_chars(v: VersionView) -> Seq<char> {
    dec_chars(v.major) + seq!['.'] + dec_chars(v.minor) + seq!['.'] + dec_chars(v.patch) + (
    if v.pre.len() == 0 {
        Seq::<char>::empty()
    } else {
        seq!['-'] + pre_chars(v.pre)
    })
}

/// The operator prefix of a comparator.
pub open spec fn op_chars(op: Op) -> Seq<char> {
    match op {
        Op::Exact => seq!['='],
        Op::GreaterEq => seq!['>', '='],
        Op::LessEq => seq!['<', '='],
        Op::Caret => seq!['^'],
        Op::Wildcard => Seq::<char>::empty(),
    }
}

/// The rendering of one comparator: a wildcard prints as a version pattern
/// ending in `*`; any other operator prints its sign and then as many
/// components as the comparator names.
pub open spec fn comparator_chars(c: ComparatorView) -> Seq<char> {
    if c.op == Op::Wildcard {
        dec_chars(c.major) + seq!['.'] + (match c.minor {
            None => seq!['*'],
            Some(m) => dec_chars(m) + seq!['.', '*'],
        })
    } else {
        op_chars(c.op) + dec_chars(c.major) + (match c.minor {
            None => Seq::<char>::empty(),
            Some(m) => seq!['.'] + dec_chars(m) + (match c.patch {
                None => Seq::<char>::empty(),
                Some(p) => seq!['.'] + dec_chars(p) + (if c.pre.len() == 0 {
                    Seq::<char>::empty()
                } else {
                    seq!['-'] + pre_chars(c.pre)
                }),
            }),
        })
    }
}

/// Comparators joined with a comma and a space.
pub open spec fn comparators_chars(r: Seq<ComparatorView>) -> Seq<char>
    decreases r.len(),
{
    if r.len() == 0 {
        Seq::<char>::empty()
    } else if r.len() == 1 {
        comparator_chars(r[0])
    } else {
        comparators_chars(r.drop_last()) + seq![',', ' '] + comparator_chars(r.last())
    }
}

/// The rendering of a whole requirement; the empty requirement prints `*`.
pub open spec fn req_chars(r: Seq<ComparatorView>) -> Seq<char> {
    if r.len() == 0 {
        seq!['*']
    } else {
        comparators_chars(r)
    }
}

fn push_digit(d: u64, out: &mut Vec<char>)
    requires
        d < 10,
    ensures
        final(out)@ == old(out)@.push(digit_char(d as int)),
{
    let c: char = if d == 0 {
        '0'
    } else if d == 1 {
        '1'
    } else if d == 2 {
        '2'
    } else if d == 3 {
        '3'
    } else if d == 4 {
        '4'
    } else if d == 5 {
        '5'
    } else if d == 6 {
        '6'
    } else if d == 7 {
        '7'
    } else if d == 8 {
        '8'
    } else {
        '9'
    };
    out.push(c);
}

/// Append the decimal rendering of `n`.
pub fn push_dec(n: u64, out: &mut Vec<char>)
    ensures
        final(out)@ == old(out)@ + dec_chars(n as int),
    decreases n,
{
    if n < 10 {
        push_digit(n, out);
        proof {
            assert(out@ =~= old(out)@ + dec_chars(n as int));
        }
    } else {
        push_dec(n / 10, out);
        push_digit(n % 10, out);
        proof {
            assert(out@ =~= old(out)@ + dec_chars(n as int));
        }
    }
}

fn push_ident(p: &PreIdent, out: &mut Vec<char>)
    ensures
        final(out)@ == old(out)@ + ident_chars(p@),
{
    match p {
        PreIdent::Num(n) => {
            push_dec(*n, out);
        },
        PreIdent::Txt(s) => {
            let mut j: usize = 0;
            while j < s.len()
                invariant
                    j <= s.len(),
                    out@ == old(out)@ + s@.take(j as int),
                decreases s.len() - j,
            {
                out.push(s[j]);
                proof {
                    assert(old(out)@ + s@.take(j as int + 1) =~= (old(out)@ + s@.take(
                        j as int,
                    )).push(s@[j as int]));
                }
                j = j + 1;
            }
            proof {
                assert(s@.take(s@.len() as int) =~= s@);
            }
        },
    }
}

fn push_pre(pre: &Vec<PreIdent>, out: &mut Vec<char>)
    ensures
        final(out)@ == old(out)@ + pre_chars(pre@.map_values(|p: PreIdent| p@)),
{
    let ghost pv = pre@.map_values(|p: PreIdent| p@);
    let mut i: usize = 0;
    while i < pre.len()
        invariant
            i <= pre.len(),
            pv == pre@.map_values(|p: PreIdent| p@),
            out@ == old(out)@ + pre_chars(pv.take(i as int)),
        decreases pre.len() - i,
    {
        if i > 0 {
            out.push('.');
        }
        push_ident(&pre[i], out);
        proof {
            assert(pv.take(i as int + 1).drop_last() =~= pv.take(i as int));
            assert(pv.take(i as int + 1).last() == pv[i as int]);
            if i == 0 {
                assert(pre_chars(pv.take(1)) == ident_chars(pv[0]));
                assert(out@ =~= old(out)@ + pre_chars(pv.take(i as int + 1)));
            } else {
                assert(out@ =~= old(out)@ + pre_chars(pv.take(i as int + 1)));
            }
        }
        i = i + 1;
    }
    proof {
        assert(pv.take(pv.len() as int) =~= pv);
    }
}

/// Append the rendering of a full version.
pub fn push_version(v: &Version, out: &mut Vec<char>)
    ensures
        final(out)@ == old(out)@ + version_chars(v@),
{
    push_dec(v.major, out);
    out.push('.');
    push_dec(v.minor, out);
    out.push('.');
    push_dec(v.patch, out);
    if v.pre.len() > 0 {
        out.push('-');
        push_pre(&v.pre, out);
    }
    proof {
        assert(out@ =~= old(out)@ + version_chars(v@));
    }
}

/// Append the rendering of one comparator.
#[verifier::rlimit(60)]
fn push_comparator(c: &crate::requirement::Comparator, out: &mut Vec<char>)
    ensures
        final(out)@ == old(out)@ + comparator_chars(c@),
{
    match c.op {
        Op::Wildcard => {
            push_dec(c.major, out);
            out.push('.');
            match c.minor {
                None => {
                    out.push('*');
                },
                Some(m) => {
                    push_dec(m, out);
                    out.push('.');
                    out.push('*');
                },
            }
            proof {
                assert(out@ =~= old(out)@ + comparator_chars(c@));
            }
        },
        _ => {
            match c.op {
                Op::Exact => {
                    out.push('=');
                },
                Op::GreaterEq => {
                    out.push('>');
                    out.push('=');
                },
                Op::LessEq => {
                    out.push('<');
                    out.push('=');
                },
                Op::Caret => {
                    out.push('^');
                },
                Op::Wildcard => {},
            }
            proof {
                assert(out@ =~= old(out)@ + op_chars(c@.op));
            }
            push_dec(c.major, out);
            match c.minor {
                None => {},
                Some(m) => {
                    out.push('.');
                    push_dec(m, out);
                    match c.patch {
                        None => {},
                        Some(p) => {
                            out.push('.');
                            push_dec(p, out);
                            if c.pre.len() > 0 {
                                out.push('-');
                                push_pre(&c.pre, out);
                            }
                        },
                    }
                },
            }
            proof {
                assert(out@ =~= old(out)@ + comparator_chars(c@));
            }
        },
    }
}

/// Append the rendering of a whole requirement.
pub fn push_req(r: &VersionReq, out: &mut Vec<char>)
    ensures
        final(out)@ == old(out)@ + req_chars(r@),
{
    if r.comparators.len() == 0 {
        out.push('*');
        proof {
            assert(out@ =~= old(out)@ + req_chars(r@));
        }
        return ;
    }
    let mut i: usize = 0;
    while i < r.comparators.len()
        invariant
            i <= r.comparators.len(),
            r.comparators.len() > 0,
            out@ == old(out)@ + (if i == 0 {
                Seq::<char>::empty()
            } else {
                comparators_chars(r@.take(i as int))
            }),
        decreases r.comparators.len() - i,
    {
        if i > 0 {
            out.push(',');
            out.push(' ');
        }
        push_comparator(&r.comparators[i], out);
        proof {
            assert(r@.take(i as int + 1).drop_last() =~= r@.take(i as int));
            assert(r@.take(i as int + 1).last() == r@[i as int]);
            if i == 0 {
                assert(comparators_chars(r@.take(1)) == comparator_chars(r@[0]));
            }
            assert(out@ =~= old(out)@ + comparators_chars(r@.take(i as int + 1)));
        }
        i = i + 1;
    }
    proof {
        assert(r@.take(r@.len() as int) =~= r@);
    }
}

/// Relies on `String`'s `FromIterator` over `char`: collecting characters
/// yields the string holding exactly those characters in order.
#[verifier::external_body]
fn chars_to_string(cs: &Vec<char>) -> (r: String)
    ensures
        r@ == cs@,
{
    cs.iter().collect()
}

/// The textual form of a version, for display and for exact pins.
pub fn version_to_string(v: &Version) -> (r: String)
    ensures
        r@ == version_chars(v@),
{
    let mut out: Vec<char> = Vec::new();
    push_version(v, &mut out);
    proof {
        assert(out@ =~= version_chars(v@));
    }
    chars_to_string(&out)
}

/// The textual form of a requirement, as the manifest writes it.
pub fn req_to_string(r: &VersionReq) -> (res: String)
    ensures
        res@ == req_chars(r@),
{
    let mut out: Vec<char> = Vec::new();
    push_req(r, &mut out);
    proof {
        assert(out@ =~= req_chars(r@));
    }
    chars_to_string(&out)
}

/// The `name@requirement` argument handed to the build tool when a
/// dependency is set.
pub fn dependency_at_req(name: &String, r: &VersionReq) -> (res: String)
    ensures
        res@ == name@ + seq!['@'] + req_chars(r@),
{
    let mut out: Vec<char> = Vec::new();
    let s = name.as_str();
    let n = s.unicode_len();
    let mut i: usize = 0;
    while i < n
        invariant
            i <= n,
            n == s@.len(),
            s@ == name@,
            out@ == name@.take(i as int),
        decreases n - i,
    {
        out.push(s.get_char(i));
        proof {
            assert(name@.take(i as int + 1) =~= name@.take(i as int).push(name@[i as int]));
        }
        i = i + 1;
    }
    proof {
        assert(name@.take(n as int) =~= name@);
    }
    out.push('@');
    push_req(r, &mut out);
    proof {
        assert(out@ =~= name@ + seq!['@'] + req_chars(r@));
    }
    chars_to_string(&out)
}

} // verus!
