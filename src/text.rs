use vstd::prelude::*;

verus! {

/// The concatenation of `parts`, in order.
pub open spec fn concat_all(parts: Seq<Seq<char>>) -> Seq<char>
    decreases parts.len(),
{
    if parts.len() == 0 {
        Seq::empty()
    } else {
        concat_all(parts.drop_last()) + parts.last()
    }
}

/// `parts` separated by `", "`.
pub open spec fn comma_joined(parts: Seq<Seq<char>>) -> Seq<char>
    decreases parts.len(),
{
    if parts.len() == 0 {
        Seq::empty()
    } else if parts.len() == 1 {
        parts[0]
    } else {
        comma_joined(parts.drop_last()) + seq![',', ' '] + parts.last()
    }
}

/// The debug rendering of a struct named `name` with the already rendered
/// `entries`: `name { e1, e2 }`, or `name` alone when there are none.
pub open spec fn struct_text(name: Seq<char>, entries: Seq<Seq<char>>) -> Seq<char> {
    if entries.len() == 0 {
        name
    } else {
        name + seq![' ', '{', ' '] + comma_joined(entries) + seq![' ', '}']
    }
}

/// The final segment of a `/`-separated path: everything after the last `/`.
pub open spec fn final_segment(s: Seq<char>) -> Seq<char>
    decreases s.len(),
{
    if s.len() == 0 {
        s
    } else if s.last() == '/' {
        Seq::empty()
    } else {
        final_segment(s.drop_last()).push(s.last())
    }
}

/// The decimal digit for `d < 10`.
pub open spec fn digit_char(d: nat) -> char {
    if d == 0 { '0' }
    else if d == 1 { '1' }
    else if d == 2 { '2' }
    else if d == 3 { '3' }
    else if d == 4 { '4' }
    else if d == 5 { '5' }
    else if d == 6 { '6' }
    else if d == 7 { '7' }
    else if d == 8 { '8' }
    else { '9' }
}

/// The decimal representation of `n`, without leading zeros.
pub open spec fn decimal(n: nat) -> Seq<char>
    decreases n,
{
    if n < 10 {
        seq![digit_char(n)]
    } else {
        decimal(n / 10).push(digit_char(n % 10))
    }
}

/// What `{:?}` renders for a string: the text quoted, with escapes.
pub uninterp spec fn debug_quote_of(s: Seq<char>) -> Seq<char>;

/// Relies on `<str as Debug>::fmt` through `format!`: the quoted, escaped text
/// depends on the characters alone.
#[verifier::external_body]
pub(crate) fn debug_quoted(s: &str) -> (r: String)
    ensures
        r@ == debug_quote_of(s@),
{
    format!("{:?}", s)
}

/// Relies on `<usize as Display>::fmt` through `format!`: plain decimal digits.
#[verifier::external_body]
pub(crate) fn decimal_text(n: usize) -> (r: String)
    ensures
        r@ == decimal(n as nat),
{
    format!("{}", n)
}

/// Everything after the last `/` of `path`.
pub fn path_final_segment(path: &str) -> (r: String)
    ensures
        r@ == final_segment(path@),
{
    let len = path.unicode_len();
    let mut start: usize = 0;
    let mut i: usize = 0;
    while i < len
        invariant
            len == path@.len(),
            start <= i <= len,
            final_segment(path@.subrange(0, i as int)) == path@.subrange(start as int, i as int),
        decreases len - i,
    {
        let c = path.get_char(i);
        proof {
            let pre = path@.subrange(0, i as int + 1);
            assert(pre.drop_last() =~= path@.subrange(0, i as int));
            assert(pre.last() == c);
        }
        if c == '/' {
            start = i + 1;
            assert(path@.subrange(start as int, i as int + 1) =~= Seq::<char>::empty());
        } else {
            assert(path@.subrange(start as int, i as int + 1) =~= path@.subrange(
                start as int,
                i as int,
            ).push(c));
        }
        i = i + 1;
    }
    assert(path@.subrange(0, len as int) =~= path@);
    String::from_str(path.substring_char(start, len))
}

/// Renders `name { e1, e2 }`, or `name` alone when `entries` is empty.
pub fn struct_debug_text(name: &str, entries: &Vec<String>) -> (r: String)
    ensures
        r@ == struct_text(name@, entries@.map_values(|e: String| e@)),
{
    let ghost parts = entries@.map_values(|e: String| e@);
    let mut out = String::from_str(name);
    if entries.len() == 0 {
        return out;
    }
    proof {
        reveal_strlit(" { ");
    }
    out.append(" { ");
    let mut i: usize = 0;
    while i < entries.len()
        invariant
            parts == entries@.map_values(|e: String| e@),
            0 < entries.len(),
            i <= entries.len(),
            i == 0 ==> out@ == name@ + seq![' ', '{', ' '],
            i > 0 ==> out@ == name@ + seq![' ', '{', ' '] + comma_joined(parts.subrange(0, i as int)),
        decreases entries.len() - i,
    {
        let ghost before = out@;
        proof {
            let pre = parts.subrange(0, i as int + 1);
            assert(pre.drop_last() =~= parts.subrange(0, i as int));
            assert(pre.last() == entries@[i as int]@);
        }
        if i > 0 {
            proof {
                reveal_strlit(", ");
            }
            out.append(", ");
            assert(out@ =~= before + seq![',', ' ']);
        }
        let ghost mid = out@;
        out.append(entries[i].as_str());
        assert(out@ == mid + entries@[i as int]@);
        proof {
            if i == 0 {
                assert(parts.subrange(0, 1).len() == 1);
                assert(out@ =~= name@ + seq![' ', '{', ' '] + comma_joined(parts.subrange(0, 1)));
            } else {
                let pre = parts.subrange(0, i as int + 1);
                assert(comma_joined(pre) == comma_joined(parts.subrange(0, i as int)) + seq![
                    ',',
                    ' ',
                ] + entries@[i as int]@);
                assert(out@ =~= name@ + seq![' ', '{', ' '] + comma_joined(pre));
            }
        }
        i = i + 1;
    }
    assert(parts.subrange(0, entries.len() as int) =~= parts);
    proof {
        reveal_strlit(" }");
    }
    out.append(" }");
    out
}

} // verus!
