use vstd::prelude::*;

verus! {

/// A path whose leading `~` names the home directory: `~` alone or `~/...`.
pub open spec fn tilde_form(p: Seq<char>) -> bool {
    p.len() > 0 && p[0] == '~' && (p.len() == 1 || p[1] == '/')
}

/// `e` is a possible home-directory expansion of `p`: either `p` itself, or, when `p` starts
/// with `~` in home form, some home directory followed by the rest of `p`.
pub open spec fn expands_to(p: Seq<char>, e: Seq<char>) -> bool {
    e == p || (tilde_form(p) && exists|home: Seq<char>| e == home + p.drop_first())
}

/// Relies on shellexpand::tilde: `~` alone or before `/` becomes the home directory when
/// that is known; any other input comes back unchanged.
#[verifier::external_body]
pub fn expand_path(path: &str) -> (r: String)
    ensures
        expands_to(path@, r@),
{
    shellexpand::tilde(path).into_owned()
}

pub open spec fn is_absolute(p: Seq<char>) -> bool {
    p.len() > 0 && p[0] == '/'
}

/// `b` appended to `a` as a path component: an absolute `b` replaces `a`, and a separator is
/// put between them where `a` is not empty and does not end in one.
pub open spec fn join(a: Seq<char>, b: Seq<char>) -> Seq<char> {
    if is_absolute(b) || a.len() == 0 {
        b
    } else if a.last() == '/' {
        a + b
    } else {
        a + seq!['/'] + b
    }
}

pub fn join_path(a: &str, b: &str) -> (r: String)
    ensures
        r@ == join(a@, b@),
{
    let bn = b.unicode_len();
    let an = a.unicode_len();
    if (bn > 0 && b.get_char(0) == '/') || an == 0 {
        return b.to_owned();
    }
    let mut r = a.to_owned();
    if a.get_char(an - 1) != '/' {
        r.append("/");
        proof {
            reveal_strlit("/");
        }
    }
    r.append(b);
    r
}

/// The numeric value of the decimal digits of `m` read as octal digits; none when a digit is
/// 8 or 9.
pub open spec fn octal_of(m: nat) -> Option<nat>
    decreases m,
{
    if m < 10 {
        if m < 8 { Some(m) } else { None }
    } else {
        match octal_of(m / 10) {
            Some(v) => if m % 10 < 8 { Some(v * 8 + m % 10) } else { None },
            None => None,
        }
    }
}

pub fn octal_value(m: u32) -> (r: Option<u32>)
    ensures
        match r {
            Some(v) => octal_of(m as nat) == Some(v as nat) && v <= m,
            None => octal_of(m as nat) is None,
        },
    decreases m,
{
    if m < 10 {
        if m < 8 { Some(m) } else { None }
    } else {
        match octal_value(m / 10) {
            Some(v) => {
                let d = m % 10;
                if d < 8 {
                    assert(v * 8 + d <= m) by (nonlinear_arith)
                        requires v <= m / 10, d == m % 10, m >= 10;
                    Some(v * 8 + d)
                } else {
                    None
                }
            },
            None => None,
        }
    }
}

/// A permission mode that cannot be read as octal digits.
#[derive(Clone, Copy, Debug, PartialEq, Eq, Structural)]
pub struct InvalidPermissions;

/// Reads a configured mode, written with decimal digits (`644`), as octal permission bits.
pub fn parse_permissions(mode: Option<u32>) -> (r: Result<Option<u32>, InvalidPermissions>)
    ensures
        mode is None ==> r == Ok::<Option<u32>, InvalidPermissions>(None),
        mode is Some ==> match octal_of(mode->Some_0 as nat) {
            Some(v) => r is Ok && r->Ok_0 is Some && r->Ok_0->Some_0 as nat == v,
            None => r is Err,
        },
{
    match mode {
        None => Ok(None),
        Some(m) => match octal_value(m) {
            Some(v) => Ok(Some(v)),
            None => Err(InvalidPermissions),
        },
    }
}

pub open spec fn is_octal_digit(c: char) -> bool {
    '0' <= c && c <= '7'
}

/// The value of a text of octal digits.
pub open spec fn octal_text_value(s: Seq<char>) -> nat
    decreases s.len(),
{
    if s.len() == 0 {
        0
    } else {
        octal_text_value(s.drop_last()) * 8 + ((s.last() as u32 - '0' as u32) as nat)
    }
}

/// The permission bits that a text mode (`"644"`) gives: none unless it is a non-empty run of
/// octal digits whose value fits in 32 bits.
pub open spec fn octal_text(s: Seq<char>) -> Option<nat> {
    if s.len() > 0 && (forall|i: int| 0 <= i < s.len() ==> is_octal_digit(#[trigger] s[i]))
        && octal_text_value(s) <= u32::MAX {
        Some(octal_text_value(s))
    } else {
        None
    }
}

proof fn lemma_octal_text_grows(s: Seq<char>, i: int)
    requires
        0 <= i <= s.len(),
    ensures
        octal_text_value(s.take(i)) <= octal_text_value(s),
    decreases s.len(),
{
    if i < s.len() {
        lemma_octal_text_grows(s.drop_last(), i);
        assert(s.drop_last().take(i) =~= s.take(i));
    } else {
        assert(s.take(i) =~= s);
    }
}

/// Reads a mode written as text of octal digits.
pub fn parse_mode_text(s: &str) -> (r: Option<u32>)
    ensures
        match r {
            Some(v) => octal_text(s@) == Some(v as nat),
            None => octal_text(s@) is None,
        },
{
    let n = s.unicode_len();
    if n == 0 {
        return None;
    }
    let mut value: u64 = 0;
    let mut i: usize = 0;
    assert(s@.take(0) =~= Seq::<char>::empty());
    while i < n
        invariant
            n == s@.len(),
            i <= n,
            value as nat == octal_text_value(s@.take(i as int)),
            value <= u32::MAX,
            forall|j: int| 0 <= j < i ==> is_octal_digit(#[trigger] s@[j]),
        decreases n - i,
    {
        let c = s.get_char(i);
        if !('0' <= c && c <= '7') {
            assert(!is_octal_digit(s@[i as int]));
            return None;
        }
        assert(s@.take(i + 1).drop_last() =~= s@.take(i as int));
        assert(s@.take(i + 1).last() == c);
        value = value * 8 + (c as u32 - '0' as u32) as u64;
        if value > 0xffff_ffffu64 {
            proof {
                lemma_octal_text_grows(s@, i + 1);
            }
            return None;
        }
        i = i + 1;
    }
    assert(s@.take(n as int) =~= s@);
    Some(value as u32)
}

} // verus!
