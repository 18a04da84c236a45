//! Verified string helpers used across the library: equality and prefix
//! tests, whitespace trimming, splitting and joining on a separator, and
//! decimal rendering of integers. Each executable function is specified
//! against a direct `Seq<char>` level definition.
use vstd::prelude::*;

verus! {

/// Relies on `String::push`: appends the given character to the end of the
/// string.
#[verifier::external_body]
pub(crate) fn push_char(s: &mut String, c: char)
    ensures
        final(s)@ == old(s)@.push(c),
{
    s.push(c);
}

/// Executable string equality, specified over the character views.
pub fn str_eq(a: &str, b: &str) -> (r: bool)
    ensures
        r == (a@ == b@),
{
    let alen = a.unicode_len();
    let blen = b.unicode_len();
    if alen != blen {
        return false;
    }
    let mut i: usize = 0;
    while i < alen
        invariant
            i <= alen,
            alen == a@.len(),
            alen == b@.len(),
            forall|j: int| 0 <= j < i ==> a@[j] == b@[j],
        decreases alen - i,
    {
        if a.get_char(i) != b.get_char(i) {
            return false;
        }
        i += 1;
    }
    proof {
        assert(a@ =~= b@);
    }
    true
}

/// Executable prefix test: does `s` start with `p`?
pub fn starts_with(s: &str, p: &str) -> (r: bool)
    ensures
        r == p@.is_prefix_of(s@),
{
    let slen = s.unicode_len();
    let plen = p.unicode_len();
    if plen > slen {
        return false;
    }
    let mut i: usize = 0;
    while i < plen
        invariant
            i <= plen,
            plen == p@.len(),
            slen == s@.len(),
            plen <= slen,
            forall|j: int| 0 <= j < i ==> s@[j] == p@[j],
        decreases plen - i,
    {
        if s.get_char(i) != p.get_char(i) {
            proof {
                assert(s@.subrange(0, p@.len() as int)[i as int] == s@[i as int]);
            }
            return false;
        }
        i += 1;
    }
    proof {
        assert(s@.subrange(0, p@.len() as int) =~= p@);
    }
    true
}

/// True when `c` counts as whitespace for trimming purposes.
pub open spec fn is_space(c: char) -> bool {
    c == ' ' || c == '\t' || c == '\r' || c == '\n'
}

/// Executable check for [`is_space`].
pub fn space(c: char) -> (r: bool)
    ensures
        r == is_space(c),
{
    c == ' ' || c == '\t' || c == '\r' || c == '\n'
}

/// `s` with leading whitespace removed.
pub open spec fn trim_front_spec(s: Seq<char>) -> Seq<char>
    decreases s.len(),
{
    if s.len() > 0 && is_space(s[0]) {
        trim_front_spec(s.drop_first())
    } else {
        s
    }
}

/// `s` with trailing whitespace removed.
pub open spec fn trim_back_spec(s: Seq<char>) -> Seq<char>
    decreases s.len(),
{
    if s.len() > 0 && is_space(s[s.len() - 1]) {
        trim_back_spec(s.drop_last())
    } else {
        s
    }
}

/// `s` with both leading and trailing whitespace removed.
pub open spec fn trim_spec(s: Seq<char>) -> Seq<char> {
    trim_back_spec(trim_front_spec(s))
}

/// Executable trim, specified by [`trim_spec`].
pub fn trim(s: &str) -> (r: &str)
    ensures
        r@ == trim_spec(s@),
{
    let len = s.unicode_len();
    proof {
        assert(s@.subrange(0, len as int) =~= s@);
    }
    let mut start: usize = 0;
    while start < len && space(s.get_char(start))
        invariant
            start <= len,
            len == s@.len(),
            trim_front_spec(s@) == trim_front_spec(s@.subrange(start as int, len as int)),
        decreases len - start,
    {
        proof {
            assert(s@.subrange(start as int, len as int).drop_first() =~= s@.subrange(
                start as int + 1,
                len as int,
            ));
        }
        start += 1;
    }
    proof {
        assert(trim_front_spec(s@) == s@.subrange(start as int, len as int));
    }
    let mut end: usize = len;
    while end > start && space(s.get_char(end - 1))
        invariant
            start <= end <= len,
            len == s@.len(),
            trim_front_spec(s@) == s@.subrange(start as int, len as int),
            trim_back_spec(s@.subrange(start as int, len as int)) == trim_back_spec(
                s@.subrange(start as int, end as int),
            ),
        decreases end,
    {
        proof {
            assert(s@.subrange(start as int, end as int).drop_last() =~= s@.subrange(
                start as int,
                end as int - 1,
            ));
        }
        end -= 1;
    }
    proof {
        assert(trim_back_spec(s@.subrange(start as int, end as int)) == s@.subrange(
            start as int,
            end as int,
        ));
    }
    s.substring_char(start, end)
}

/// Does the sequence contain the character `c`?
pub fn contains_char(s: &str, c: char) -> (r: bool)
    ensures
        r == s@.contains(c),
{
    let len = s.unicode_len();
    let mut i: usize = 0;
    while i < len
        invariant
            i <= len,
            len == s@.len(),
            forall|j: int| 0 <= j < i ==> s@[j] != c,
        decreases len - i,
    {
        if s.get_char(i) == c {
            return true;
        }
        i += 1;
    }
    false
}

/// Splitting `s` at every occurrence of `c`: always one more part than
/// there are separators, with empty parts kept.
pub open spec fn split_spec(s: Seq<char>, c: char) -> Seq<Seq<char>>
    decreases s.len(),
{
    if s.len() == 0 {
        seq![Seq::<char>::empty()]
    } else if s[0] == c {
        seq![Seq::<char>::empty()] + split_spec(s.drop_first(), c)
    } else {
        let rest = split_spec(s.drop_first(), c);
        seq![seq![s[0]] + rest[0]] + rest.drop_first()
    }
}

pub proof fn lemma_split_len(s: Seq<char>, c: char)
    ensures
        split_spec(s, c).len() >= 1,
    decreases s.len(),
{
    if s.len() > 0 && s[0] != c {
        lemma_split_len(s.drop_first(), c);
    }
}

/// Executable split on a single separator character.
pub fn split_char(s: &str, c: char) -> (r: Vec<String>)
    ensures
        r@.map_values(|t: String| t@) == split_spec(s@, c),
{
    let len = s.unicode_len();
    proof {
        assert(s@.subrange(0, len as int) =~= s@);
        lemma_split_len(s@, c);
        assert(prepend_first(Seq::<char>::empty(), split_spec(s@, c)) =~~= split_spec(s@, c));
    }
    let mut parts: Vec<String> = Vec::new();
    let mut cur: String = String::new();
    let mut i: usize = 0;
    while i < len
        invariant
            i <= len,
            len == s@.len(),
            split_spec(s@, c) =~~= parts@.map_values(|t: String| t@) + prepend_first(
                cur@,
                split_spec(s@.subrange(i as int, len as int), c),
            ),
        decreases len - i,
    {
        let ghost suffix = s@.subrange(i as int, len as int);
        proof {
            assert(suffix.len() > 0);
            assert(suffix[0] == s@[i as int]);
            assert(suffix.drop_first() =~= s@.subrange(i as int + 1, len as int));
            lemma_split_len(s@.subrange(i as int + 1, len as int), c);
        }
        let ch = s.get_char(i);
        if ch == c {
            parts.push(cur);
            cur = String::new();
            proof {
                assert(split_spec(s@, c) =~~= parts@.map_values(|t: String| t@) + prepend_first(
                    cur@,
                    split_spec(s@.subrange(i as int + 1, len as int), c),
                ));
            }
        } else {
            push_char(&mut cur, ch);
            proof {
                let rest = split_spec(s@.subrange(i as int + 1, len as int), c);
                assert(split_spec(suffix, c) =~~= seq![seq![suffix[0]] + rest[0]]
                    + rest.drop_first());
                assert(split_spec(s@, c) =~~= parts@.map_values(|t: String| t@) + prepend_first(
                    cur@,
                    rest,
                ));
            }
        }
        i += 1;
    }
    proof {
        assert(s@.subrange(len as int, len as int) =~= Seq::<char>::empty());
        assert(split_spec(s@.subrange(len as int, len as int), c) =~~= seq![
            Seq::<char>::empty(),
        ]);
    }
    parts.push(cur);
    proof {
        assert(parts@.map_values(|t: String| t@) =~~= split_spec(s@, c));
    }
    parts
}

/// The first part of `rest` with `pre` glued to its front.
pub open spec fn prepend_first(pre: Seq<char>, rest: Seq<Seq<char>>) -> Seq<Seq<char>> {
    seq![pre + rest[0]] + rest.drop_first()
}

/// The parts of `parts` concatenated with `sep` between each two.
pub open spec fn join_spec(parts: Seq<Seq<char>>, sep: Seq<char>) -> Seq<char>
    decreases parts.len(),
{
    if parts.len() == 0 {
        Seq::<char>::empty()
    } else if parts.len() == 1 {
        parts[0]
    } else {
        parts[0] + sep + join_spec(parts.drop_first(), sep)
    }
}

pub proof fn lemma_join_push(parts: Seq<Seq<char>>, sep: Seq<char>, last: Seq<char>)
    requires
        parts.len() >= 1,
    ensures
        join_spec(parts.push(last), sep) =~= join_spec(parts, sep) + sep + last,
    decreases parts.len(),
{
    if parts.len() == 1 {
        assert(parts.push(last).drop_first() =~~= seq![last]);
        assert(join_spec(seq![last], sep) == last);
        assert(parts.push(last)[0] == parts[0]);
        assert(join_spec(parts.push(last), sep) == parts[0] + sep + join_spec(
            parts.push(last).drop_first(),
            sep,
        ));
    } else {
        assert(parts.push(last).drop_first() =~~= parts.drop_first().push(last));
        lemma_join_push(parts.drop_first(), sep, last);
    }
}

/// Executable join with a separator string.
pub fn join_with(parts: &Vec<String>, sep: &str) -> (r: String)
    ensures
        r@ == join_spec(parts@.map_values(|t: String| t@), sep@),
{
    let mut out = String::new();
    let mut i: usize = 0;
    while i < parts.len()
        invariant
            i <= parts@.len(),
            out@ == join_spec(parts@.map_values(|t: String| t@).take(i as int), sep@),
        decreases parts@.len() - i,
    {
        let ghost views = parts@.map_values(|t: String| t@);
        if i > 0 {
            out.append(sep);
        }
        out.append(parts[i].as_str());
        proof {
            if i == 0 {
                assert(views.take(1) =~~= seq![views[0]]);
                assert(join_spec(views.take(1), sep@) == views[0]);
            } else {
                assert(views.take(i as int + 1) =~~= views.take(i as int).push(
                    views[i as int],
                ));
                lemma_join_push(views.take(i as int), sep@, views[i as int]);
            }
        }
        i += 1;
    }
    proof {
        assert(parts@.map_values(|t: String| t@).take(parts@.len() as int) =~~= parts@.map_values(
            |t: String| t@,
        ));
    }
    out
}

/// `s` with every (leftmost-first, non-overlapping) occurrence of the
/// HTML entity `&amp;` replaced by a bare `&`.
pub open spec fn replace_amp_spec(s: Seq<char>) -> Seq<char>
    decreases s.len(),
{
    if s.len() == 0 {
        Seq::<char>::empty()
    } else if s.len() >= 5 && s.subrange(0, 5) == seq!['&', 'a', 'm', 'p', ';'] {
        seq!['&'] + replace_amp_spec(s.skip(5))
    } else {
        seq![s[0]] + replace_amp_spec(s.drop_first())
    }
}

/// Executable entity replacement, specified by [`replace_amp_spec`].
pub fn replace_amp(s: &str) -> (r: String)
    ensures
        r@ == replace_amp_spec(s@),
{
    let len = s.unicode_len();
    proof {
        assert(s@.skip(0) =~= s@);
        assert(Seq::<char>::empty() + replace_amp_spec(s@) =~= replace_amp_spec(s@));
    }
    let mut out = String::new();
    let mut i: usize = 0;
    while i < len
        invariant
            i <= len,
            len == s@.len(),
            replace_amp_spec(s@) == out@ + replace_amp_spec(s@.skip(i as int)),
        decreases len - i,
    {
        let ghost suffix = s@.skip(i as int);
        let ghost pre = out@;
        let is_entity = len - i >= 5 && s.get_char(i) == '&' && s.get_char(i + 1) == 'a'
            && s.get_char(i + 2) == 'm' && s.get_char(i + 3) == 'p' && s.get_char(i + 4) == ';';
        if is_entity {
            push_char(&mut out, '&');
            proof {
                assert(suffix.subrange(0, 5) =~= seq!['&', 'a', 'm', 'p', ';']);
                assert(suffix.skip(5) =~= s@.skip(i as int + 5));
                assert(pre + (seq!['&'] + replace_amp_spec(s@.skip(i as int + 5))) =~= out@
                    + replace_amp_spec(s@.skip(i as int + 5)));
            }
            i += 5;
        } else {
            let c = s.get_char(i);
            push_char(&mut out, c);
            proof {
                assert(suffix[0] == c);
                if suffix.len() >= 5 && suffix.subrange(0, 5) == seq!['&', 'a', 'm', 'p', ';'] {
                    assert(suffix[0] == '&');
                    assert(suffix[1] == 'a');
                    assert(suffix[2] == 'm');
                    assert(suffix[3] == 'p');
                    assert(suffix[4] == ';');
                    assert(s@[i as int] == '&');
                    assert(s@[i as int + 1] == 'a');
                    assert(s@[i as int + 2] == 'm');
                    assert(s@[i as int + 3] == 'p');
                    assert(s@[i as int + 4] == ';');
                    assert(false);
                }
                assert(suffix.drop_first() =~= s@.skip(i as int + 1));
                assert(pre + (seq![c] + replace_amp_spec(s@.skip(i as int + 1))) =~= out@
                    + replace_amp_spec(s@.skip(i as int + 1)));
            }
            i += 1;
        }
    }
    proof {
        assert(s@.skip(len as int) =~= Seq::<char>::empty());
        assert(out@ + Seq::<char>::empty() =~= out@);
    }
    out
}

/// `s` with every `'#'` character removed.
pub open spec fn remove_hash_spec(s: Seq<char>) -> Seq<char>
    decreases s.len(),
{
    if s.len() == 0 {
        Seq::<char>::empty()
    } else if s[0] == '#' {
        remove_hash_spec(s.drop_first())
    } else {
        seq![s[0]] + remove_hash_spec(s.drop_first())
    }
}

/// Executable hash-mark removal, specified by [`remove_hash_spec`].
pub fn remove_hash(s: &str) -> (r: String)
    ensures
        r@ == remove_hash_spec(s@),
{
    let len = s.unicode_len();
    proof {
        assert(s@.skip(0) =~= s@);
        assert(Seq::<char>::empty() + remove_hash_spec(s@) =~= remove_hash_spec(s@));
    }
    let mut out = String::new();
    let mut i: usize = 0;
    while i < len
        invariant
            i <= len,
            len == s@.len(),
            remove_hash_spec(s@) == out@ + remove_hash_spec(s@.skip(i as int)),
        decreases len - i,
    {
        let ghost suffix = s@.skip(i as int);
        let ghost pre = out@;
        let c = s.get_char(i);
        proof {
            assert(suffix[0] == c);
            assert(suffix.drop_first() =~= s@.skip(i as int + 1));
        }
        if c != '#' {
            push_char(&mut out, c);
            proof {
                assert(pre + (seq![c] + remove_hash_spec(s@.skip(i as int + 1))) =~= out@
                    + remove_hash_spec(s@.skip(i as int + 1)));
            }
        }
        i += 1;
    }
    proof {
        assert(s@.skip(len as int) =~= Seq::<char>::empty());
        assert(out@ + Seq::<char>::empty() =~= out@);
    }
    out
}

/// The digit character for a value below ten.
pub open spec fn digit_char(d: nat) -> char {
    if d == 0 {
        '0'
    } else if d == 1 {
        '1'
    } else if d == 2 {
        '2'
    } else if d == 3 {
        '3'
    } else if d == 4 {
        '4'
    } else if d == 5 {
        '5'
    } else if d == 6 {
        '6'
    } else if d == 7 {
        '7'
    } else if d == 8 {
        '8'
    } else {
        '9'
    }
}

/// The decimal rendering of `n`, most significant digit first.
pub open spec fn dec_spec(n: nat) -> Seq<char>
    decreases n,
{
    if n < 10 {
        seq![digit_char(n)]
    } else {
        dec_spec(n / 10).push(digit_char(n % 10))
    }
}

fn digit_of(d: u64) -> (c: char)
    requires
        d < 10,
    ensures
        c == digit_char(d as nat),
{
    if d == 0 {
        '0'
    } else if d == 1 {
        '1'
    } else if d == 2 {
        '2'
    } else if d == 3 {
        '3'
    } else if d == 4 {
        '4'
    } else if d == 5 {
        '5'
    } else if d == 6 {
        '6'
    } else if d == 7 {
        '7'
    } else if d == 8 {
        '8'
    } else {
        '9'
    }
}

/// Executable decimal rendering, specified by [`dec_spec`].
pub fn u64_to_string(n: u64) -> (r: String)
    ensures
        r@ == dec_spec(n as nat),
    decreases n,
{
    if n < 10 {
        let mut s = String::new();
        push_char(&mut s, digit_of(n));
        proof {
            assert(s@ =~= dec_spec(n as nat));
        }
        s
    } else {
        let mut s = u64_to_string(n / 10);
        push_char(&mut s, digit_of(n % 10));
        s
    }
}

} // verus!
