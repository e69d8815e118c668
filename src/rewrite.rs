use vstd::prelude::*;
use vstd::string::StringExecFns;
use crate::text::{find_from, lemma_find_first, lemma_find_none, lemma_find_props, occurs_at};
use crate::whitelist::ExtensionWhitelist;

verus! {

/// Index of the last `c` in `s`, or -1 when `s` holds none.
pub open spec fn last_index_of(s: Seq<char>, c: char) -> int
    decreases s.len(),
{
    if s.len() == 0 {
        -1
    } else if s.last() == c {
        s.len() - 1
    } else {
        last_index_of(s.drop_last(), c)
    }
}

/// The last `/`-delimited segment of a URL.
pub open spec fn file_name(url: Seq<char>) -> Seq<char> {
    url.subrange(last_index_of(url, '/') + 1, url.len() as int)
}

/// Everything before the file name, the final `/` included.
pub open spec fn directory(url: Seq<char>) -> Seq<char> {
    url.subrange(0, last_index_of(url, '/') + 1)
}

/// The separator between the width and the rest of a thumbnail's file name.
pub open spec fn width_separator() -> Seq<char> {
    seq!['p', 'x', '-']
}

pub open spec fn decimal_digits() -> Seq<char> {
    seq!['0', '1', '2', '3', '4', '5', '6', '7', '8', '9']
}

/// The decimal notation of `n`, without leading zeros.
pub open spec fn decimal(n: nat) -> Seq<char>
    decreases n,
{
    if n < 10 {
        seq![decimal_digits()[n as int]]
    } else {
        decimal(n / 10).push(decimal_digits()[(n % 10) as int])
    }
}

/// The URL with the width in front of the first `px-` of its file name
/// replaced by `width`, or `None` when the file name holds no `px-`.
pub open spec fn width_replaced(url: Seq<char>, width: nat) -> Option<Seq<char>> {
    let name = file_name(url);
    let j = find_from(name, width_separator(), 0);
    if j < 0 {
        None
    } else {
        Some(directory(url) + decimal(width) + width_separator() + name.subrange(
            j + 3,
            name.len() as int,
        ))
    }
}

/// What the rewriter makes of `url`: nothing when the filter turns its file
/// name away, else the URL with its width replaced.
pub open spec fn rewritten(url: Seq<char>, width: nat, filter: ExtensionWhitelist) -> Option<
    Seq<char>,
> {
    if filter.admits(file_name(url)) {
        width_replaced(url, width)
    } else {
        None
    }
}

pub open spec fn opt_view(r: Option<String>) -> Option<Seq<char>> {
    match r {
        Some(s) => Some(s@),
        None => None,
    }
}

/// The digit `d` as a one-character string.
fn digit_str(d: usize) -> (r: &'static str)
    requires
        d < 10,
    ensures
        r@ =~= seq![decimal_digits()[d as int]],
{
    proof {
        reveal_strlit("0");
        reveal_strlit("1");
        reveal_strlit("2");
        reveal_strlit("3");
        reveal_strlit("4");
        reveal_strlit("5");
        reveal_strlit("6");
        reveal_strlit("7");
        reveal_strlit("8");
        reveal_strlit("9");
    }
    if d == 0 {
        "0"
    } else if d == 1 {
        "1"
    } else if d == 2 {
        "2"
    } else if d == 3 {
        "3"
    } else if d == 4 {
        "4"
    } else if d == 5 {
        "5"
    } else if d == 6 {
        "6"
    } else if d == 7 {
        "7"
    } else if d == 8 {
        "8"
    } else {
        "9"
    }
}

/// The decimal notation of `n`.
fn decimal_string(n: usize) -> (r: String)
    ensures
        r@ == decimal(n as nat),
    decreases n,
{
    if n < 10 {
        digit_str(n).to_owned()
    } else {
        let mut s = decimal_string(n / 10);
        s.append(digit_str(n % 10));
        s
    }
}

proof fn lemma_last_index(s: Seq<char>, c: char, k: int)
    requires
        -1 <= k < s.len(),
        k == -1 || s[k] == c,
        forall|j: int| k < j < s.len() ==> s[j] != c,
    ensures
        last_index_of(s, c) == k,
    decreases s.len(),
{
    if s.len() > 0 && k < s.len() - 1 {
        lemma_last_index(s.drop_last(), c, k);
    }
}

proof fn lemma_last_index_props(s: Seq<char>, c: char)
    ensures
        -1 <= last_index_of(s, c) < s.len(),
        last_index_of(s, c) >= 0 ==> s[last_index_of(s, c)] == c,
        forall|j: int| last_index_of(s, c) < j < s.len() ==> s[j] != c,
    decreases s.len(),
{
    if s.len() > 0 && s.last() != c {
        lemma_last_index_props(s.drop_last(), c);
        assert forall|j: int| last_index_of(s, c) < j < s.len() implies s[j] != c by {
            if j < s.len() - 1 {
                assert(s.drop_last()[j] == s[j]);
            }
        }
    }
}

proof fn lemma_decimal_chars(n: nat)
    ensures
        decimal(n).len() >= 1,
        forall|i: int| 0 <= i < decimal(n).len() ==> '0' <= #[trigger] decimal(n)[i] <= '9',
    decreases n,
{
    if n >= 10 {
        lemma_decimal_chars(n / 10);
    }
}

/// Replacing the width a second time, with the same width, changes nothing:
/// the first `px-` of the new file name is the one just written.
pub proof fn lemma_width_replaced_idempotent(url: Seq<char>, width: nat)
    requires
        width_replaced(url, width) is Some,
    ensures
        width_replaced(width_replaced(url, width)->0, width) == width_replaced(url, width),
{
    let name = file_name(url);
    let sep = width_separator();
    let j = find_from(name, sep, 0);
    let dir = directory(url);
    let dec = decimal(width);
    let rest = name.subrange(j + 3, name.len() as int);
    let v = width_replaced(url, width)->0;
    let li = last_index_of(url, '/');
    lemma_last_index_props(url, '/');
    lemma_decimal_chars(width);
    lemma_find_props(name, sep, 0);
    assert(v == dir + dec + sep + rest);
    assert(dir.len() == li + 1);
    let tail = dec + sep + rest;
    assert(v =~= dir + tail);
    assert forall|k: int| li < k < v.len() implies v[k] != '/' by {
        let t = k - dir.len();
        assert(v[k] == tail[t]);
        if t < dec.len() {
            assert('0' <= dec[t] <= '9');
        } else if t >= dec.len() + 3 {
            assert(tail[t] == rest[t - dec.len() - 3]);
            assert(rest[t - dec.len() - 3] == name[j + 3 + (t - dec.len() - 3)]);
            assert(name[j + 3 + (t - dec.len() - 3)] == url[li + 1 + j + 3 + (t - dec.len() - 3)]);
        }
    }
    if li >= 0 {
        assert(v[li] == url[li]);
    }
    lemma_last_index(v, '/', li);
    assert(file_name(v) =~= tail);
    assert(directory(v) =~= dir);
    assert forall|k: int| 0 <= k < dec.len() implies !occurs_at(tail, sep, k) by {
        if occurs_at(tail, sep, k) {
            assert(tail.subrange(k, k + 3)[0] == tail[k]);
            assert('0' <= dec[k] <= '9');
        }
    }
    assert(tail.subrange(dec.len() as int, dec.len() + 3int) =~= sep);
    lemma_find_first(tail, sep, 0, dec.len() as int);
    assert(tail.subrange(dec.len() + 3int, tail.len() as int) =~= rest);
}

/// Rewriting a rewritten URL again with the same width gives it back, when
/// the filter admits the rewritten file name.
pub proof fn lemma_rewrite_idempotent(url: Seq<char>, width: nat, filter: ExtensionWhitelist)
    requires
        rewritten(url, width, filter) is Some,
        filter.admits(file_name(rewritten(url, width, filter)->0)),
    ensures
        rewritten(rewritten(url, width, filter)->0, width, filter) == rewritten(url, width, filter),
{
    lemma_width_replaced_idempotent(url, width);
}

/// The character index at which the file name of `url` starts.
fn file_name_start(url: &str) -> (r: usize)
    ensures
        r == last_index_of(url@, '/') + 1,
        r <= url@.len(),
{
    let n = url.unicode_len();
    let mut i: usize = n;
    while i > 0 && url.get_char(i - 1) != '/'
        invariant
            n == url@.len(),
            i <= n,
            forall|j: int| i <= j < n ==> url@[j] != '/',
        decreases i,
    {
        i = i - 1;
    }
    proof {
        lemma_last_index(url@, '/', i - 1);
    }
    i
}

/// Replaces the width token of `raw_url`'s file name (what precedes its first
/// `px-`) by `target_width`, keeping every other character as it was.
pub fn replace_width(raw_url: &str, target_width: usize) -> (r: Option<String>)
    ensures
        opt_view(r) == width_replaced(raw_url@, target_width as nat),
{
    let n = raw_url.unicode_len();
    let start = file_name_start(raw_url);
    let name = raw_url.substring_char(start, n);
    let m = name.unicode_len();
    let ghost sep = width_separator();
    let mut j: usize = 0;
    while m >= 3 && j <= m - 3 && !(name.get_char(j) == 'p' && name.get_char(j + 1) == 'x'
        && name.get_char(j + 2) == '-')
        invariant
            m == name@.len(),
            name@ == file_name(raw_url@),
            sep == width_separator(),
            j <= m,
            forall|k: int| 0 <= k < j ==> !occurs_at(name@, sep, k),
        decreases m - j,
    {
        proof {
            if occurs_at(name@, sep, j as int) {
                assert(name@.subrange(j as int, j + 3)[0] == name@[j as int]);
                assert(name@.subrange(j as int, j + 3)[1] == name@[j + 1]);
                assert(name@.subrange(j as int, j + 3)[2] == name@[j + 2]);
            }
        }
        j = j + 1;
    }
    if m < 3 || j > m - 3 {
        proof {
            lemma_find_none(name@, sep, 0);
        }
        return None;
    }
    proof {
        assert(name@.subrange(j as int, j + 3) =~= sep);
        lemma_find_first(name@, sep, 0, j as int);
    }
    let rest = name.substring_char(j + 3, m);
    let mut out = raw_url.substring_char(0, start).to_owned();
    let digits = decimal_string(target_width);
    out.append(digits.as_str());
    proof {
        reveal_strlit("px-");
        assert("px-"@ =~= sep);
    }
    out.append("px-");
    out.append(rest);
    Some(out)
}

/// Runs `raw_url` through `filter` and, when it passes, replaces its width.
pub fn rewrite_url(raw_url: &str, target_width: usize, filter: &ExtensionWhitelist) -> (r: Option<
    String,
>)
    ensures
        opt_view(r) == rewritten(raw_url@, target_width as nat, *filter),
{
    let n = raw_url.unicode_len();
    let start = file_name_start(raw_url);
    let name = raw_url.substring_char(start, n);
    if !filter.is_whitelisted(name) {
        return None;
    }
    replace_width(raw_url, target_width)
}

} // verus!
