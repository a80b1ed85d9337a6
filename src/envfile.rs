use crate::text::{chars_of, lower_of, string_of, to_lower, to_upper, trim_bounds, trimmed, upper_of};
use vstd::prelude::*;

verus! {

/// `s` cut at every `sep`; a text without `sep` is one piece.
pub open spec fn split_on(s: Seq<char>, sep: char) -> Seq<Seq<char>>
    decreases s.len(),
{
    if s.len() == 0 {
        seq![Seq::empty()]
    } else {
        let prev = split_on(s.drop_last(), sep);
        if s.last() == sep {
            prev.push(Seq::empty())
        } else {
            prev.update(prev.len() - 1, prev.last().push(s.last()))
        }
    }
}

/// `s` cut into lines at every newline.
pub open spec fn split_nl(s: Seq<char>) -> Seq<Seq<char>> {
    split_on(s, '\n')
}

/// Index of the first `c` in `s` at or after `i`, or `s.len()`.
pub open spec fn find_from(s: Seq<char>, c: char, i: int) -> int
    decreases s.len() - i,
{
    if i < 0 || i >= s.len() {
        s.len() as int
    } else if s[i] == c {
        i
    } else {
        find_from(s, c, i + 1)
    }
}

/// `s` with each `\"` replaced by `"`, scanning left to right.
pub open spec fn unescape(s: Seq<char>) -> Seq<char>
    decreases s.len(),
{
    if s.len() == 0 {
        s
    } else if s.len() >= 2 && s[0] == '\\' && s[1] == '"' {
        seq!['"'] + unescape(s.subrange(2, s.len() as int))
    } else {
        seq![s[0]] + unescape(s.subrange(1, s.len() as int))
    }
}

/// A value with matching outer quotes loses them and has `\"` unescaped.
pub open spec fn unquote(v: Seq<char>) -> Seq<char> {
    if v.len() >= 2 && ((v[0] == '"' && v.last() == '"') || (v[0] == '\'' && v.last() == '\'')) {
        unescape(v.subrange(1, v.len() - 1))
    } else {
        v
    }
}

/// The `KEY=VALUE` pair of one line: blank lines, `#` comments, lines
/// without `=` and empty keys give none.
pub open spec fn parse_line(line: Seq<char>) -> Option<(Seq<char>, Seq<char>)> {
    let t = trimmed(line);
    let eq = find_from(t, '=', 0);
    if t.len() == 0 || t[0] == '#' || eq >= t.len() {
        None
    } else {
        let key = trimmed(t.subrange(0, eq));
        let value = trimmed(t.subrange(eq + 1, t.len() as int));
        if key.len() == 0 {
            None
        } else {
            Some((key, unquote(value)))
        }
    }
}

/// The pairs of `lines`, in order.
pub open spec fn parse_lines(lines: Seq<Seq<char>>) -> Seq<(Seq<char>, Seq<char>)>
    decreases lines.len(),
{
    if lines.len() == 0 {
        Seq::empty()
    } else {
        match parse_line(lines.last()) {
            Some(p) => parse_lines(lines.drop_last()).push(p),
            None => parse_lines(lines.drop_last()),
        }
    }
}

/// The pairs of a `.env` text.
pub open spec fn parse_env(content: Seq<char>) -> Seq<(Seq<char>, Seq<char>)> {
    parse_lines(split_nl(content))
}

pub open spec fn pair_views(v: Seq<(String, String)>) -> Seq<(Seq<char>, Seq<char>)> {
    v.map_values(|p: (String, String)| (p.0@, p.1@))
}

/// `v[lo..hi]`.
pub fn slice_chars(v: &Vec<char>, lo: usize, hi: usize) -> (r: Vec<char>)
    requires
        lo <= hi <= v@.len(),
    ensures
        r@ == v@.subrange(lo as int, hi as int),
{
    let mut r: Vec<char> = Vec::new();
    let mut i: usize = lo;
    while i < hi
        invariant
            lo <= i <= hi <= v@.len(),
            r@ == v@.subrange(lo as int, i as int),
        decreases hi - i,
    {
        r.push(v[i]);
        i += 1;
        assert(r@ =~= v@.subrange(lo as int, i as int));
    }
    r
}

/// Trimmed copy of `v`.
pub fn trim_chars(v: &Vec<char>) -> (r: Vec<char>)
    ensures
        r@ == trimmed(v@),
{
    let (lo, hi) = trim_bounds(v);
    slice_chars(v, lo, hi)
}

pub fn unescape_chars(s: &Vec<char>) -> (r: Vec<char>)
    ensures
        r@ == unescape(s@),
{
    let n = s.len();
    let mut out: Vec<char> = Vec::new();
    let mut i: usize = 0;
    assert(s@.subrange(0, n as int) =~= s@);
    assert(out@ + unescape(s@) =~= unescape(s@));
    while i < n
        invariant
            n == s@.len(),
            i <= n,
            out@ + unescape(s@.subrange(i as int, n as int)) == unescape(s@),
        decreases n - i,
    {
        let ghost rest = s@.subrange(i as int, n as int);
        if i + 1 < n && s[i] == '\\' && s[i + 1] == '"' {
            out.push('"');
            proof {
                assert(rest.subrange(2, rest.len() as int) =~= s@.subrange(i + 2, n as int));
                assert(out@ + unescape(s@.subrange(i + 2, n as int)) =~= (out@.drop_last() + unescape(rest)));
            }
            i += 2;
        } else {
            out.push(s[i]);
            proof {
                assert(rest.subrange(1, rest.len() as int) =~= s@.subrange(i + 1, n as int));
                assert(out@ + unescape(s@.subrange(i + 1, n as int)) =~= (out@.drop_last() + unescape(rest)));
            }
            i += 1;
        }
    }
    assert(s@.subrange(n as int, n as int) =~= Seq::<char>::empty());
    assert(out@ + Seq::<char>::empty() =~= out@);
    out
}

pub fn unquote_chars(v: &Vec<char>) -> (r: Vec<char>)
    ensures
        r@ == unquote(v@),
{
    let n = v.len();
    if n >= 2 && ((v[0] == '"' && v[n - 1] == '"') || (v[0] == '\'' && v[n - 1] == '\'')) {
        let inner = slice_chars(v, 1, n - 1);
        unescape_chars(&inner)
    } else {
        slice_chars(v, 0, n)
    }
}

/// The pair of one line, as `parse_line` gives it.
pub fn parse_line_chars(line: &Vec<char>) -> (r: Option<(String, String)>)
    ensures
        r is None <==> parse_line(line@) is None,
        r matches Some(p) ==> parse_line(line@) == Some((p.0@, p.1@)),
{
    let t = trim_chars(line);
    if t.len() == 0 || t[0] == '#' {
        return None;
    }
    let mut eq: usize = 0;
    while eq < t.len() && t[eq] != '='
        invariant
            eq <= t@.len(),
            find_from(t@, '=', eq as int) == find_from(t@, '=', 0),
        decreases t@.len() - eq,
    {
        eq += 1;
    }
    if eq >= t.len() {
        return None;
    }
    let key = trim_chars(&slice_chars(&t, 0, eq));
    let value = trim_chars(&slice_chars(&t, eq + 1, t.len()));
    if key.len() == 0 {
        return None;
    }
    let unq = unquote_chars(&value);
    Some((string_of(&key), string_of(&unq)))
}

/// The `KEY=VALUE` pairs of a `.env` text, in order.
pub fn parse_env_content(content: &str) -> (r: Vec<(String, String)>)
    ensures
        pair_views(r@) == parse_env(content@),
{
    let cs = chars_of(content);
    let n = cs.len();
    let mut out: Vec<(String, String)> = Vec::new();
    let mut cur: Vec<char> = Vec::new();
    let mut i: usize = 0;
    while i < n
        invariant
            n == cs@.len(),
            cs@ == content@,
            i <= n,
            split_nl(cs@.subrange(0, i as int)).len() >= 1,
            cur@ == split_nl(cs@.subrange(0, i as int)).last(),
            pair_views(out@) == parse_lines(split_nl(cs@.subrange(0, i as int)).drop_last()),
        decreases n - i,
    {
        let ghost pre = cs@.subrange(0, i as int);
        let ghost next = cs@.subrange(0, i + 1);
        proof {
            assert(next.drop_last() =~= pre);
            assert(next.last() == cs@[i as int]);
        }
        if cs[i] == '\n' {
            let ghost before = out@;
            match parse_line_chars(&cur) {
                Some(p) => {
                    out.push(p);
                    proof {
                        assert(pair_views(out@) =~= pair_views(before).push((p.0@, p.1@)));
                    }
                },
                None => {},
            }
            proof {
                assert(split_nl(next) == split_nl(pre).push(Seq::empty()));
                assert(split_nl(next).drop_last() =~= split_nl(pre));
                let lines = split_nl(pre);
                assert(lines.drop_last().push(lines.last()) =~= lines);
            }
            cur = Vec::new();
            proof {
                assert(cur@ =~= Seq::<char>::empty());
            }
        } else {
            cur.push(cs[i]);
            proof {
                let lines = split_nl(pre);
                assert(split_nl(next) == lines.update(lines.len() - 1, lines.last().push(cs@[i as int])));
                assert(split_nl(next).drop_last() =~= lines.drop_last());
            }
        }
        i += 1;
    }
    let ghost before = out@;
    match parse_line_chars(&cur) {
        Some(p) => {
            out.push(p);
            proof {
                assert(pair_views(out@) =~= pair_views(before).push((p.0@, p.1@)));
            }
        },
        None => {},
    }
    proof {
        assert(cs@.subrange(0, n as int) =~= cs@);
        let lines = split_nl(cs@);
        assert(lines.drop_last().push(lines.last()) =~= lines);
    }
    out
}


/// A word with its first character uppercased and the rest lowercased.
pub open spec fn title_word(w: Seq<char>) -> Seq<char> {
    if w.len() == 0 {
        w
    } else {
        upper_of(seq![w[0]]) + lower_of(w.subrange(1, w.len() as int))
    }
}

/// `ws` joined with single spaces.
pub open spec fn join_spaced(ws: Seq<Seq<char>>) -> Seq<char>
    decreases ws.len(),
{
    if ws.len() == 0 {
        Seq::empty()
    } else if ws.len() == 1 {
        ws[0]
    } else {
        join_spaced(ws.drop_last()) + seq![' '] + ws.last()
    }
}

/// The readable secret name for an environment variable: its `_`-separated
/// parts title-cased and joined with spaces.
pub open spec fn env_secret_name(env_name: Seq<char>) -> Seq<char> {
    join_spaced(split_on(env_name, '_').map_values(|w: Seq<char>| title_word(w)))
}

/// `a` followed by `b`.
pub fn concat_chars(a: &Vec<char>, b: &Vec<char>) -> (r: Vec<char>)
    ensures
        r@ == a@ + b@,
{
    let mut r = slice_chars(a, 0, a.len());
    let mut i: usize = 0;
    assert(a@.subrange(0, a@.len() as int) =~= a@);
    while i < b.len()
        invariant
            i <= b@.len(),
            r@ == a@ + b@.subrange(0, i as int),
        decreases b@.len() - i,
    {
        r.push(b[i]);
        i += 1;
        assert(r@ =~= a@ + b@.subrange(0, i as int));
    }
    assert(b@.subrange(0, b@.len() as int) =~= b@);
    r
}

pub fn title_chars(w: &Vec<char>) -> (r: Vec<char>)
    ensures
        r@ == title_word(w@),
{
    if w.len() == 0 {
        return Vec::new();
    }
    let mut first: Vec<char> = Vec::new();
    first.push(w[0]);
    assert(first@ =~= seq![w@[0]]);
    let up = to_upper(string_of(&first).as_str());
    let rest = slice_chars(w, 1, w.len());
    let low = to_lower(string_of(&rest).as_str());
    concat_chars(&chars_of(up.as_str()), &chars_of(low.as_str()))
}

/// Readable secret name for environment variable `env_name`
/// (`DB_URL` becomes `Db Url`).
pub fn env_var_to_secret_name(env_name: &str) -> (r: String)
    ensures
        r@ == env_secret_name(env_name@),
{
    let cs = chars_of(env_name);
    let n = cs.len();
    let mut out: Vec<char> = Vec::new();
    let mut cur: Vec<char> = Vec::new();
    let mut started = false;
    let mut i: usize = 0;
    while i < n
        invariant
            n == cs@.len(),
            cs@ == env_name@,
            i <= n,
            started == (split_on(cs@.subrange(0, i as int), '_').len() > 1),
            split_on(cs@.subrange(0, i as int), '_').len() >= 1,
            cur@ == split_on(cs@.subrange(0, i as int), '_').last(),
            out@ == join_spaced(split_on(cs@.subrange(0, i as int), '_').drop_last().map_values(|w: Seq<char>| title_word(w))),
        decreases n - i,
    {
        let ghost pre = cs@.subrange(0, i as int);
        let ghost next = cs@.subrange(0, i + 1);
        proof {
            assert(next.drop_last() =~= pre);
            assert(next.last() == cs@[i as int]);
        }
        if cs[i] == '_' {
            let t = title_chars(&cur);
            let ghost done = split_on(pre, '_').drop_last().map_values(|w: Seq<char>| title_word(w));
            let ghost all = split_on(pre, '_').map_values(|w: Seq<char>| title_word(w));
            proof {
                let lines = split_on(pre, '_');
                assert(lines.drop_last().push(lines.last()) =~= lines);
                assert(all =~= done.push(title_word(cur@)));
                assert(all.drop_last() =~= done);
            }
            if !started {
                proof {
                    assert(done.len() == 0);
                    assert(all.len() == 1);
                }
                out = t;
            } else {
                let mut sp: Vec<char> = Vec::new();
                sp.push(' ');
                let with_space = concat_chars(&out, &sp);
                out = concat_chars(&with_space, &t);
                proof {
                    assert(sp@ =~= seq![' ']);
                }
            }
            proof {
                assert(split_on(next, '_') == split_on(pre, '_').push(Seq::empty()));
                assert(split_on(next, '_').drop_last() =~= split_on(pre, '_'));
                assert(out@ == join_spaced(all));
            }
            cur = Vec::new();
            started = true;
            proof {
                assert(cur@ =~= Seq::<char>::empty());
            }
        } else {
            cur.push(cs[i]);
            proof {
                let lines = split_on(pre, '_');
                assert(split_on(next, '_') == lines.update(lines.len() - 1, lines.last().push(cs@[i as int])));
                assert(split_on(next, '_').drop_last() =~= lines.drop_last());
            }
        }
        i += 1;
    }
    let t = title_chars(&cur);
    let ghost done = split_on(cs@, '_').drop_last().map_values(|w: Seq<char>| title_word(w));
    let ghost all = split_on(cs@, '_').map_values(|w: Seq<char>| title_word(w));
    proof {
        assert(cs@.subrange(0, n as int) =~= cs@);
        let lines = split_on(cs@, '_');
        assert(lines.drop_last().push(lines.last()) =~= lines);
        assert(all =~= done.push(title_word(cur@)));
        assert(all.drop_last() =~= done);
    }
    if !started {
        proof {
            assert(all.len() == 1);
        }
        out = t;
    } else {
        let mut sp: Vec<char> = Vec::new();
        sp.push(' ');
        let with_space = concat_chars(&out, &sp);
        out = concat_chars(&with_space, &t);
        proof {
            assert(sp@ =~= seq![' ']);
        }
    }
    string_of(&out)
}

} // verus!

verus! {

/// Whether `char::is_alphanumeric` holds of `c` (Unicode `Alphabetic` or
/// `Numeric`).
pub uninterp spec fn alnum_of(c: char) -> bool;

/// Relies on `char::is_alphanumeric`: a property of the character alone.
#[verifier::external_body]
fn is_alnum(c: char) -> (r: bool)
    ensures
        r == alnum_of(c),
{
    c.is_alphanumeric()
}

/// Each character that is not alphanumeric replaced by `_`.
pub open spec fn underscored(s: Seq<char>) -> Seq<char> {
    s.map_values(|c: char| if alnum_of(c) { c } else { '_' })
}

/// The non-empty parts of `ws` joined with `_`.
pub open spec fn join_nonempty(ws: Seq<Seq<char>>) -> Seq<char>
    decreases ws.len(),
{
    if ws.len() == 0 {
        Seq::empty()
    } else if ws.last().len() == 0 {
        join_nonempty(ws.drop_last())
    } else if join_nonempty(ws.drop_last()).len() == 0 {
        ws.last()
    } else {
        join_nonempty(ws.drop_last()) + seq!['_'] + ws.last()
    }
}

/// Environment-variable name for a secret called `name`: uppercased, every
/// non-alphanumeric character an underscore, runs of underscores collapsed
/// and trimmed; a prefix is uppercased and underscored the same way and
/// joined with `_`.
pub open spec fn env_name_of(name: Seq<char>, prefix: Option<Seq<char>>) -> Seq<char> {
    let base = join_nonempty(split_on(underscored(upper_of(name)), '_'));
    match prefix {
        Some(p) => underscored(upper_of(p)) + seq!['_'] + base,
        None => base,
    }
}

/// Value as written to a `.env` line: quoted, with `"` escaped, when it
/// holds a space or a quote.
pub open spec fn env_escaped(v: Seq<char>) -> Seq<char> {
    if exists|i: int| 0 <= i < v.len() && (v[i] == ' ' || v[i] == '"' || v[i] == '\'') {
        seq!['"'] + escape_quotes(v) + seq!['"']
    } else {
        v
    }
}

/// Each `"` preceded by a backslash.
pub open spec fn escape_quotes(v: Seq<char>) -> Seq<char>
    decreases v.len(),
{
    if v.len() == 0 {
        v
    } else if v.last() == '"' {
        escape_quotes(v.drop_last()) + seq!['\\', '"']
    } else {
        escape_quotes(v.drop_last()).push(v.last())
    }
}

pub fn underscore_chars(s: &Vec<char>) -> (r: Vec<char>)
    ensures
        r@ == underscored(s@),
{
    let mut r: Vec<char> = Vec::new();
    let mut i: usize = 0;
    while i < s.len()
        invariant
            i <= s@.len(),
            r@ == underscored(s@.subrange(0, i as int)),
        decreases s@.len() - i,
    {
        let c = s[i];
        r.push(if is_alnum(c) { c } else { '_' });
        i += 1;
        assert(r@ =~= underscored(s@.subrange(0, i as int)));
    }
    assert(s@.subrange(0, i as int) =~= s@);
    r
}

/// The non-empty `_`-separated parts of `s` joined with `_`.
pub fn collapse_underscores(s: &Vec<char>) -> (r: Vec<char>)
    ensures
        r@ == join_nonempty(split_on(s@, '_')),
{
    let n = s.len();
    let mut out: Vec<char> = Vec::new();
    let mut cur: Vec<char> = Vec::new();
    let mut i: usize = 0;
    while i < n
        invariant
            n == s@.len(),
            i <= n,
            split_on(s@.subrange(0, i as int), '_').len() >= 1,
            cur@ == split_on(s@.subrange(0, i as int), '_').last(),
            out@ == join_nonempty(split_on(s@.subrange(0, i as int), '_').drop_last()),
        decreases n - i,
    {
        let ghost pre = s@.subrange(0, i as int);
        let ghost next = s@.subrange(0, i + 1);
        proof {
            assert(next.drop_last() =~= pre);
            assert(next.last() == s@[i as int]);
        }
        if s[i] == '_' {
            proof {
                let lines = split_on(pre, '_');
                assert(lines.drop_last().push(lines.last()) =~= lines);
                assert(lines.drop_last() =~= lines.drop_last());
            }
            if cur.len() > 0 {
                if out.len() == 0 {
                    out = cur;
                } else {
                    let mut sep: Vec<char> = Vec::new();
                    sep.push('_');
                    assert(sep@ =~= seq!['_']);
                    let a = concat_chars(&out, &sep);
                    out = concat_chars(&a, &cur);
                }
            }
            proof {
                assert(split_on(next, '_') == split_on(pre, '_').push(Seq::empty()));
                assert(split_on(next, '_').drop_last() =~= split_on(pre, '_'));
            }
            cur = Vec::new();
            proof {
                assert(cur@ =~= Seq::<char>::empty());
            }
        } else {
            cur.push(s[i]);
            proof {
                let lines = split_on(pre, '_');
                assert(split_on(next, '_') == lines.update(lines.len() - 1, lines.last().push(s@[i as int])));
                assert(split_on(next, '_').drop_last() =~= lines.drop_last());
            }
        }
        i += 1;
    }
    proof {
        assert(s@.subrange(0, n as int) =~= s@);
        let lines = split_on(s@, '_');
        assert(lines.drop_last().push(lines.last()) =~= lines);
    }
    if cur.len() > 0 {
        if out.len() == 0 {
            out = cur;
        } else {
            let mut sep: Vec<char> = Vec::new();
            sep.push('_');
            assert(sep@ =~= seq!['_']);
            let a = concat_chars(&out, &sep);
            out = concat_chars(&a, &cur);
        }
    }
    out
}

/// Environment-variable name for a secret called `name`, with an optional
/// prefix.
pub fn env_var_name(name: &str, prefix: Option<&str>) -> (r: String)
    ensures
        r@ == env_name_of(name@, match prefix {
            Some(p) => Some(p@),
            None => None,
        }),
{
    let up = to_upper(name);
    let base = collapse_underscores(&underscore_chars(&chars_of(up.as_str())));
    match prefix {
        None => string_of(&base),
        Some(p) => {
            let pu = to_upper(p);
            let cp = underscore_chars(&chars_of(pu.as_str()));
            let mut sep: Vec<char> = Vec::new();
            sep.push('_');
            assert(sep@ =~= seq!['_']);
            let a = concat_chars(&cp, &sep);
            string_of(&concat_chars(&a, &base))
        },
    }
}

/// `v` as written to a `.env` line.
pub fn escape_env_value(v: &Vec<char>) -> (r: Vec<char>)
    ensures
        r@ == env_escaped(v@),
{
    let mut special = false;
    let mut escaped: Vec<char> = Vec::new();
    let mut i: usize = 0;
    while i < v.len()
        invariant
            i <= v@.len(),
            escaped@ == escape_quotes(v@.subrange(0, i as int)),
            special == exists|k: int| 0 <= k < i && (v@[k] == ' ' || v@[k] == '"' || v@[k] == '\''),
        decreases v@.len() - i,
    {
        let c = v[i];
        proof {
            assert(v@.subrange(0, i + 1).drop_last() =~= v@.subrange(0, i as int));
        }
        if c == '"' {
            escaped.push('\\');
            escaped.push('"');
        } else {
            escaped.push(c);
        }
        if c == ' ' || c == '"' || c == '\'' {
            special = true;
        }
        proof {
            assert(escaped@ =~= escape_quotes(v@.subrange(0, i + 1)));
            if !special {
                assert forall|k: int| 0 <= k < i + 1 implies !(v@[k] == ' ' || v@[k] == '"' || v@[k] == '\'') by {
                    if k < i {
                    }
                }
            }
        }
        i += 1;
    }
    assert(v@.subrange(0, i as int) =~= v@);
    if special {
        let mut q: Vec<char> = Vec::new();
        q.push('"');
        assert(q@ =~= seq!['"']);
        let a = concat_chars(&q, &escaped);
        concat_chars(&a, &q)
    } else {
        slice_chars(v, 0, v.len())
    }
}

} // verus!
