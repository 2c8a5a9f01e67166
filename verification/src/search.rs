use vstd::prelude::*;

verus! {

/// The Unicode `White_Space` code points: what trimming strips.
pub open spec fn is_ws(c: char) -> bool {
    let u = c as u32;
    u == 0x9 || u == 0xA || u == 0xB || u == 0xC || u == 0xD || u == 0x20 || u == 0x85 || u == 0xA0
        || u == 0x1680 || (0x2000 <= u && u <= 0x200A) || u == 0x2028 || u == 0x2029 || u == 0x202F
        || u == 0x205F || u == 0x3000
}

fn is_ws_char(c: char) -> (b: bool)
    ensures
        b == is_ws(c),
{
    let u = c as u32;
    u == 0x9 || u == 0xA || u == 0xB || u == 0xC || u == 0xD || u == 0x20 || u == 0x85 || u == 0xA0
        || u == 0x1680 || (0x2000 <= u && u <= 0x200A) || u == 0x2028 || u == 0x2029 || u == 0x202F
        || u == 0x205F || u == 0x3000
}

/// A line as a split yields it: with a carriage return dropped when one
/// stands just before the line feed.
pub open spec fn strip_cr(l: Seq<char>) -> Seq<char> {
    if l.len() > 0 && l.last() == '\r' {
        l.drop_last()
    } else {
        l
    }
}

/// The lines of `s` when `cur` is the part of the current line read so
/// far: lines end at each line feed, and a final line without one still
/// counts (while a trailing line feed opens no empty last line).
pub open spec fn split_lines_from(s: Seq<char>, cur: Seq<char>) -> Seq<Seq<char>>
    decreases s.len(),
{
    if s.len() == 0 {
        if cur.len() == 0 {
            Seq::empty()
        } else {
            seq![cur]
        }
    } else if s.first() == '\n' {
        seq![strip_cr(cur)] + split_lines_from(s.drop_first(), Seq::empty())
    } else {
        split_lines_from(s.drop_first(), cur.push(s.first()))
    }
}

/// The lines of `s`, split at line feeds, each with a carriage return
/// dropped just before the line feed.
pub open spec fn split_lines(s: Seq<char>) -> Seq<Seq<char>> {
    split_lines_from(s, Seq::empty())
}

/// The views of a vector of lines.
pub open spec fn line_views(lines: Seq<String>) -> Seq<Seq<char>> {
    lines.map_values(|l: String| l@)
}

/// Split `content` into its lines.
pub fn collect_lines(content: &str) -> (lines: Vec<String>)
    ensures
        line_views(lines@) == split_lines(content@),
{
    let ghost s = content@;
    let n = content.unicode_len();
    let mut lines: Vec<String> = Vec::new();
    let mut start: usize = 0;
    let mut i: usize = 0;
    proof {
        assert(s.skip(0) =~= s);
        assert(s.subrange(0, 0) =~= Seq::<char>::empty());
        assert(line_views(lines@) =~= Seq::<Seq<char>>::empty());
    }
    while i < n
        invariant
            s == content@,
            n == s.len(),
            start <= i <= n,
            split_lines(s) == line_views(lines@) + split_lines_from(
                s.skip(i as int),
                s.subrange(start as int, i as int),
            ),
        decreases n - i,
    {
        let ghost lines0 = lines@;
        let ghost cur = s.subrange(start as int, i as int);
        proof {
            assert(s.skip(i as int).first() == s[i as int]);
            assert(s.skip(i as int).drop_first() =~= s.skip(i + 1));
        }
        let c = content.get_char(i);
        if c == '\n' {
            let mut endx = i;
            if endx > start && content.get_char(endx - 1) == '\r' {
                endx = endx - 1;
            }
            proof {
                assert(strip_cr(cur) =~= s.subrange(start as int, endx as int));
            }
            let line = content.substring_char(start, endx);
            lines.push(line.to_owned());
            start = i + 1;
            proof {
                assert(line_views(lines@) =~= line_views(lines0) + seq![strip_cr(cur)]);
                assert(line_views(lines0) + (seq![strip_cr(cur)] + split_lines_from(
                    s.skip(i + 1),
                    Seq::empty(),
                )) =~= line_views(lines@) + split_lines_from(s.skip(i + 1), Seq::empty()));
                assert(s.subrange(start as int, i + 1) =~= Seq::<char>::empty());
            }
        } else {
            proof {
                assert(cur.push(s[i as int]) =~= s.subrange(start as int, i + 1));
            }
        }
        i = i + 1;
    }
    proof {
        assert(s.skip(n as int) =~= Seq::<char>::empty());
    }
    if start < n {
        let line = content.substring_char(start, n);
        lines.push(line.to_owned());
        proof {
            assert(line_views(lines@) =~= line_views(lines@.drop_last()) + seq![
                s.subrange(start as int, n as int),
            ]);
            assert(line_views(lines@) =~= split_lines(s));
        }
    } else {
        proof {
            assert(s.subrange(start as int, n as int) =~= Seq::<char>::empty());
            assert(line_views(lines@) + Seq::<Seq<char>>::empty() =~= line_views(lines@));
        }
    }
    lines
}

/// `needle` occurs contiguously somewhere in `hay`.
pub open spec fn contains_seq(hay: Seq<char>, needle: Seq<char>) -> bool {
    exists|i: int|
        0 <= i <= hay.len() - needle.len() && #[trigger] hay.subrange(i, i + needle.len())
            == needle
}

fn match_at(hay: &str, needle: &str, i: usize) -> (b: bool)
    requires
        i + needle@.len() <= hay@.len(),
    ensures
        b == (hay@.subrange(i as int, i + needle@.len()) == needle@),
{
    let hn = hay.unicode_len();
    let nn = needle.unicode_len();
    let mut k: usize = 0;
    while k < nn
        invariant
            k <= nn,
            hn == hay@.len(),
            nn == needle@.len(),
            i + nn <= hay@.len(),
            forall|m: int| 0 <= m < k ==> hay@[i + m] == needle@[m],
        decreases nn - k,
    {
        if hay.get_char(i + k) != needle.get_char(k) {
            proof {
                assert(hay@.subrange(i as int, i + nn)[k as int] != needle@[k as int]);
            }
            return false;
        }
        k = k + 1;
    }
    proof {
        assert(hay@.subrange(i as int, i + nn) =~= needle@);
    }
    true
}

/// Substring test: does `needle` occur in `hay`?
pub fn contains_str(hay: &str, needle: &str) -> (b: bool)
    ensures
        b == contains_seq(hay@, needle@),
{
    let hn = hay.unicode_len();
    let nn = needle.unicode_len();
    if nn == 0 {
        proof {
            let w: int = 0;
            assert(hay@.subrange(w, w + needle@.len()) =~= needle@);
        }
        return true;
    }
    if nn > hn {
        return false;
    }
    let mut i: usize = 0;
    while i <= hn - nn
        invariant
            hn == hay@.len(),
            nn == needle@.len(),
            1 <= nn <= hn,
            i <= hn - nn + 1,
            forall|j: int| 0 <= j < i ==> #[trigger] hay@.subrange(j, j + nn) != needle@,
        decreases hn + 1 - nn - i,
    {
        if match_at(hay, needle, i) {
            return true;
        }
        i = i + 1;
    }
    false
}

/// `s` with leading whitespace dropped.
pub open spec fn trim_start_spec(s: Seq<char>) -> Seq<char>
    decreases s.len(),
{
    if s.len() > 0 && is_ws(s.first()) {
        trim_start_spec(s.drop_first())
    } else {
        s
    }
}

/// `s` with trailing whitespace dropped.
pub open spec fn trim_end_spec(s: Seq<char>) -> Seq<char>
    decreases s.len(),
{
    if s.len() > 0 && is_ws(s.last()) {
        trim_end_spec(s.drop_last())
    } else {
        s
    }
}

/// `s` with leading and trailing whitespace dropped.
pub open spec fn trim_spec(s: Seq<char>) -> Seq<char> {
    trim_end_spec(trim_start_spec(s))
}

/// Drop leading and trailing whitespace.
pub fn trim_str(s: &str) -> (r: String)
    ensures
        r@ == trim_spec(s@),
{
    let n = s.unicode_len();
    let mut a: usize = 0;
    proof {
        assert(s@.skip(0) =~= s@);
    }
    while a < n && is_ws_char(s.get_char(a))
        invariant
            n == s@.len(),
            a <= n,
            trim_start_spec(s@) == trim_start_spec(s@.skip(a as int)),
        decreases n - a,
    {
        proof {
            assert(s@.skip(a as int).first() == s@[a as int]);
            assert(s@.skip(a as int).drop_first() =~= s@.skip(a + 1));
        }
        a = a + 1;
    }
    proof {
        if a < n {
            assert(s@.skip(a as int).first() == s@[a as int]);
        }
        assert(trim_start_spec(s@) == s@.skip(a as int));
    }
    let mut b: usize = n;
    proof {
        assert(s@.skip(a as int) =~= s@.subrange(a as int, n as int));
    }
    while b > a && is_ws_char(s.get_char(b - 1))
        invariant
            n == s@.len(),
            a <= b <= n,
            trim_end_spec(s@.subrange(a as int, n as int)) == trim_end_spec(
                s@.subrange(a as int, b as int),
            ),
        decreases b,
    {
        proof {
            assert(s@.subrange(a as int, b as int).last() == s@[b - 1]);
            assert(s@.subrange(a as int, b as int).drop_last() =~= s@.subrange(a as int, b - 1));
        }
        b = b - 1;
    }
    proof {
        if b > a {
            assert(s@.subrange(a as int, b as int).last() == s@[b - 1]);
        }
        assert(trim_end_spec(s@.subrange(a as int, b as int)) == s@.subrange(a as int, b as int));
    }
    let t = s.substring_char(a, b);
    t.to_owned()
}

/// The lowering of a character sequence, as `str::to_lowercase` maps it.
pub uninterp spec fn lower_of(s: Seq<char>) -> Seq<char>;

/// Relies on str::to_lowercase: its result depends on the characters
/// alone, so the lowering of a text is one fixed sequence.
#[verifier::external_body]
fn lowercase(s: &str) -> (r: String)
    ensures
        r@ == lower_of(s@),
{
    s.to_lowercase()
}

/// Of `lines`, those that contain `query`, in order, each trimmed.
pub open spec fn matching_trimmed(lines: Seq<Seq<char>>, query: Seq<char>) -> Seq<Seq<char>>
    decreases lines.len(),
{
    if lines.len() == 0 {
        Seq::empty()
    } else {
        let rest = matching_trimmed(lines.drop_last(), query);
        if contains_seq(lines.last(), query) {
            rest.push(trim_spec(lines.last()))
        } else {
            rest
        }
    }
}

/// What a case-sensitive search returns: the lines of `content` that
/// contain `query`, in order, each trimmed.
pub open spec fn search_spec(query: Seq<char>, content: Seq<char>) -> Seq<Seq<char>> {
    matching_trimmed(split_lines(content), query)
}

/// Of `lines`, those whose lowering contains the lowering of `query`,
/// each trimmed (trimming the original line, not its lowering).
pub open spec fn ci_matching_trimmed(lines: Seq<Seq<char>>, query: Seq<char>) -> Seq<Seq<char>>
    decreases lines.len(),
{
    if lines.len() == 0 {
        Seq::empty()
    } else {
        let rest = ci_matching_trimmed(lines.drop_last(), query);
        if contains_seq(lower_of(lines.last()), lower_of(query)) {
            rest.push(trim_spec(lines.last()))
        } else {
            rest
        }
    }
}

/// What a case-insensitive search returns.
pub open spec fn case_insensitive_search_spec(query: Seq<char>, content: Seq<char>) -> Seq<
    Seq<char>,
> {
    ci_matching_trimmed(split_lines(content), query)
}

/// The lines of `content` that contain `query`, in order, each trimmed.
pub fn search(query: &str, content: &str) -> (res: Vec<String>)
    ensures
        line_views(res@) == search_spec(query@, content@),
{
    let lines = collect_lines(content);
    let mut res: Vec<String> = Vec::new();
    let mut i: usize = 0;
    proof {
        assert(line_views(lines@).take(0) =~= Seq::<Seq<char>>::empty());
        assert(line_views(res@) =~= Seq::<Seq<char>>::empty());
        assert(matching_trimmed(Seq::<Seq<char>>::empty(), query@) =~= Seq::<Seq<char>>::empty());
    }
    while i < lines.len()
        invariant
            i <= lines@.len(),
            line_views(lines@) == split_lines(content@),
            line_views(res@) == matching_trimmed(line_views(lines@).take(i as int), query@),
        decreases lines@.len() - i,
    {
        let ghost lv = line_views(lines@);
        let ghost res0 = res@;
        let line = &lines[i];
        proof {
            assert(lv.take(i + 1).drop_last() =~= lv.take(i as int));
            assert(lv.take(i + 1).last() == line@);
        }
        if contains_str(line.as_str(), query) {
            let t = trim_str(line.as_str());
            res.push(t);
            proof {
                assert(line_views(res@) =~= line_views(res0).push(trim_spec(line@)));
                assert(line_views(res@) =~= matching_trimmed(lv.take(i + 1), query@));
            }
        } else {
            proof {
                assert(line_views(res@) =~= matching_trimmed(lv.take(i + 1), query@));
            }
        }
        i = i + 1;
    }
    proof {
        assert(line_views(lines@).take(lines@.len() as int) =~= line_views(lines@));
    }
    res
}

/// The lines of `content` that contain `query` regardless of letter
/// case, in order, each trimmed.
pub fn case_insensitive_search(query: &str, content: &str) -> (res: Vec<String>)
    ensures
        line_views(res@) == case_insensitive_search_spec(query@, content@),
{
    let lowered_query = lowercase(query);
    let lines = collect_lines(content);
    let mut res: Vec<String> = Vec::new();
    let mut i: usize = 0;
    proof {
        assert(line_views(lines@).take(0) =~= Seq::<Seq<char>>::empty());
        assert(line_views(res@) =~= Seq::<Seq<char>>::empty());
        assert(ci_matching_trimmed(Seq::<Seq<char>>::empty(), query@) =~= Seq::<
            Seq<char>,
        >::empty());
    }
    while i < lines.len()
        invariant
            i <= lines@.len(),
            lowered_query@ == lower_of(query@),
            line_views(lines@) == split_lines(content@),
            line_views(res@) == ci_matching_trimmed(line_views(lines@).take(i as int), query@),
        decreases lines@.len() - i,
    {
        let ghost lv = line_views(lines@);
        let ghost res0 = res@;
        let line = &lines[i];
        proof {
            assert(lv.take(i + 1).drop_last() =~= lv.take(i as int));
            assert(lv.take(i + 1).last() == line@);
        }
        let lowered_line = lowercase(line.as_str());
        if contains_str(lowered_line.as_str(), lowered_query.as_str()) {
            let t = trim_str(line.as_str());
            res.push(t);
            proof {
                assert(line_views(res@) =~= line_views(res0).push(trim_spec(line@)));
                assert(line_views(res@) =~= ci_matching_trimmed(lv.take(i + 1), query@));
            }
        } else {
            proof {
                assert(line_views(res@) =~= ci_matching_trimmed(lv.take(i + 1), query@));
            }
        }
        i = i + 1;
    }
    proof {
        assert(line_views(lines@).take(lines@.len() as int) =~= line_views(lines@));
    }
    res
}

/// A grep configuration: where to search, for what, and how.
pub struct Config {
    pub path: String,
    pub pattern: String,
    pub is_case_sensitive: bool,
}

impl Config {
    /// Build the configuration from the command line's arguments (the
    /// whole argument vector, program name first). Whether matching is
    /// case sensitive is handed in by the caller, which reads it from
    /// the environment.
    pub fn new(args: &[String], is_case_sensitive: bool) -> (r: Result<Config, &'static str>)
        ensures
            args@.len() >= 3 ==> (r matches Ok(c) && c.path@ == args@[1]@ && c.pattern@
                == args@[2]@ && c.is_case_sensitive == is_case_sensitive),
            args@.len() < 3 ==> (r matches Err(m) && m@ == "Not enough arguments"@),
    {
        if args.len() < 3 {
            return Err("Not enough arguments");
        }
        let path = args[1].clone();
        let pattern = args[2].clone();
        Ok(Config { path, pattern, is_case_sensitive })
    }

    /// The matching lines of `content` under this configuration: the
    /// pure step of a grep run, between reading the file and printing.
    pub fn search_in(&self, content: &str) -> (res: Vec<String>)
        ensures
            self.is_case_sensitive ==> line_views(res@) == search_spec(self.pattern@, content@),
            !self.is_case_sensitive ==> line_views(res@) == case_insensitive_search_spec(
                self.pattern@,
                content@,
            ),
    {
        if self.is_case_sensitive {
            search(self.pattern.as_str(), content)
        } else {
            case_insensitive_search(self.pattern.as_str(), content)
        }
    }
}

} // verus!
