//! The command sanitizer: the raw value of a descriptor's `Exec` entry is
//! stripped of its field-code placeholders and of one surrounding pair of
//! double quotes, then wrapped for shell command substitution. The wrapping
//! runs the text as a nested command — a deliberate simplification, not a
//! hardened escaper: shell metacharacters inside the value stay as they are.

use vstd::prelude::*;
use vstd::string::{StrSliceExecFns, StringExecFns};

verus! {

/// `s` with every two-character `%` field code removed. A `%` that ends the
/// text starts no two-character sequence and stays.
pub open spec fn strip_codes(s: Seq<char>) -> Seq<char>
    decreases s.len(),
{
    if s.len() == 0 {
        Seq::empty()
    } else if s[0] == '%' && s.len() >= 2 {
        strip_codes(s.skip(2))
    } else {
        seq![s[0]] + strip_codes(s.skip(1))
    }
}

/// `s` with one leading and one trailing double quote removed, each only if
/// present.
pub open spec fn strip_quotes(s: Seq<char>) -> Seq<char> {
    let a = if s.len() > 0 && s[0] == '"' {
        s.skip(1)
    } else {
        s
    };
    if a.len() > 0 && a.last() == '"' {
        a.drop_last()
    } else {
        a
    }
}

/// The sanitized form of a raw `Exec` value: field codes removed, then one
/// surrounding quote pair stripped.
pub open spec fn sanitize_spec(s: Seq<char>) -> Seq<char> {
    strip_quotes(strip_codes(s))
}

/// `s` wrapped in backquotes, for execution as a nested shell command.
pub open spec fn wrap_spec(s: Seq<char>) -> Seq<char> {
    seq!['`'] + s + seq!['`']
}

/// Sanitize the raw value of an `Exec` entry: remove every two-character `%`
/// field code, then strip a single leading and a single trailing double quote
/// if present.
pub fn sanitize_exec(exec: &str) -> (r: String)
    ensures
        r@ == sanitize_spec(exec@),
{
    let len: usize = exec.unicode_len();
    let mut out = String::new();
    proof {
        assert(exec@.skip(0) =~= exec@);
    }
    let mut i: usize = 0;
    while i < len
        invariant
            0 <= i <= len,
            len == exec@.len(),
            out@ + strip_codes(exec@.skip(i as int)) == strip_codes(exec@),
        decreases len - i,
    {
        let c = exec.get_char(i);
        if c == '%' && i + 1 < len {
            proof {
                assert(exec@.skip(i as int).skip(2) =~= exec@.skip(i + 2));
            }
            i = i + 2;
        } else {
            let ghost out0 = out@;
            out.append(exec.substring_char(i, i + 1));
            proof {
                assert(exec@.subrange(i as int, i + 1) =~= seq![exec@[i as int]]);
                assert(exec@.skip(i as int).skip(1) =~= exec@.skip(i + 1));
                assert(out0 + (seq![exec@[i as int]] + strip_codes(exec@.skip(i + 1))) =~= out@
                    + strip_codes(exec@.skip(i + 1)));
            }
            i = i + 1;
        }
    }
    proof {
        assert(exec@.skip(len as int) =~= Seq::<char>::empty());
        assert(out@ + Seq::<char>::empty() =~= out@);
    }
    let t = out;
    proof {
        assert(t@ == strip_codes(exec@));
    }
    let tn: usize = t.as_str().unicode_len();
    let start: usize = if tn > 0 && t.as_str().get_char(0) == '"' {
        1
    } else {
        0
    };
    let end: usize = if tn > start && t.as_str().get_char(tn - 1) == '"' {
        tn - 1
    } else {
        tn
    };
    let r = t.as_str().substring_char(start, end).to_owned();
    proof {
        let a = if t@.len() > 0 && t@[0] == '"' {
            t@.skip(1)
        } else {
            t@
        };
        assert(a =~= t@.subrange(start as int, t@.len() as int));
        if a.len() > 0 && a.last() == '"' {
            assert(a.last() == t@[t@.len() - 1]);
            assert(a.drop_last() =~= t@.subrange(start as int, end as int));
        } else {
            assert(a =~= t@.subrange(start as int, end as int));
        }
    }
    r
}

/// The sanitized `Exec` value wrapped in backquotes: the string handed to the
/// shell, which runs the sanitized text as a nested command.
pub fn shell_command(exec: &str) -> (r: String)
    ensures
        r@ == wrap_spec(sanitize_spec(exec@)),
{
    let body = sanitize_exec(exec);
    proof {
        reveal_strlit("`");
    }
    let mut out = String::from_str("`");
    proof {
        assert(out@ =~= seq!['`']);
    }
    out.append(body.as_str());
    out.append("`");
    proof {
        assert(out@ =~= wrap_spec(sanitize_spec(exec@)));
    }
    out
}

} // verus!
