//! How the harness depends on a project's own Rust crate.
//!
//! Two names meet at that line of the manifest: the identifier by which generated source calls the
//! crate, and the package name by which Cargo finds it.  Where they differ, both are written.
use crate::text::{same, to_chars};
use vstd::prelude::*;
use vstd::string::*;

verus! {

/// White space, as Unicode has it.
pub open spec fn is_space(c: char) -> bool {
    let n = c as u32;
    (9 <= n <= 13) || n == 0x20 || n == 0x85 || n == 0xa0 || n == 0x1680 || (0x2000 <= n <= 0x200a) || n == 0x2028 || n == 0x2029
        || n == 0x202f || n == 0x205f || n == 0x3000
}

/// Without the white space in front.
pub open spec fn trim_start(s: Seq<char>) -> Seq<char>
    decreases s.len(),
{
    if s.len() > 0 && is_space(s[0]) { trim_start(s.drop_first()) } else { s }
}

/// Without the white space behind.
pub open spec fn trim_end(s: Seq<char>) -> Seq<char>
    decreases s.len(),
{
    if s.len() > 0 && is_space(s.last()) { trim_end(s.drop_last()) } else { s }
}

/// Without the white space on both sides.
pub open spec fn trim(s: Seq<char>) -> Seq<char> {
    trim_end(trim_start(s))
}

/// The position of the first `c` from `i` on, or the length where there is none.
pub open spec fn first_at(s: Seq<char>, c: char, i: int) -> int
    decreases s.len() - i,
{
    if i < 0 || i >= s.len() {
        s.len() as int
    } else if s[i] == c {
        i
    } else {
        first_at(s, c, i + 1)
    }
}

/// The first `c` is where it is found, and none stands before it.
pub proof fn first_at_bounds(s: Seq<char>, c: char, i: int)
    requires
        0 <= i <= s.len(),
    ensures
        i <= first_at(s, c, i) <= s.len(),
        first_at(s, c, i) < s.len() ==> s[first_at(s, c, i)] == c,
        forall|k: int| i <= k < first_at(s, c, i) ==> s[k] != c,
    decreases s.len() - i,
{
    if i < s.len() && s[i] != c {
        first_at_bounds(s, c, i + 1);
    }
}

/// What stands before the first `c`, or everything where there is none.
pub open spec fn before(s: Seq<char>, c: char) -> Seq<char> {
    s.subrange(0, first_at(s, c, 0))
}

/// What stands behind the first `c`, or nothing where there is none.
pub open spec fn behind(s: Seq<char>, c: char) -> Seq<char> {
    let k = first_at(s, c, 0);
    if k < s.len() { s.subrange(k + 1, s.len() as int) } else { Seq::empty() }
}

/// The contents of the quoted string that a value starts with.
pub open spec fn unquoted(value: Seq<char>) -> Option<Seq<char>> {
    if value.len() == 0 || (value[0] != '"' && value[0] != '\'') {
        None
    } else {
        let rest = value.drop_first();
        let end = first_at(rest, value[0], 0);
        if end < rest.len() { Some(rest.subrange(0, end)) } else { None }
    }
}

/// The name of the section that a header opens.
pub open spec fn section(line: Seq<char>) -> Seq<char> {
    trim(before(line.drop_first(), ']'))
}

/// A line that says nothing: blank, or a comment.
pub open spec fn is_silent(line: Seq<char>) -> bool {
    line.len() == 0 || line[0] == '#'
}

/// The line gives the name of the package.
pub open spec fn is_name(line: Seq<char>) -> bool {
    first_at(line, '=', 0) < line.len() && trim(before(line, '=')) == "name"@
}

/// The name of the package in the lines of a manifest, where the first of them belongs to the
/// package section or not.
pub open spec fn scan(text: Seq<char>, in_package: bool) -> Option<Seq<char>>
    decreases text.len(),
{
    if text.len() == 0 {
        None
    } else {
        proof {
            first_at_bounds(text, '\n', 0);
        }
        let line = trim(before(text, '\n'));
        let rest = behind(text, '\n');
        if is_silent(line) {
            scan(rest, in_package)
        } else if line[0] == '[' {
            scan(rest, section(line) == "package"@)
        } else if in_package && is_name(line) {
            unquoted(trim(behind(line, '=')))
        } else {
            scan(rest, in_package)
        }
    }
}

/// The line of a manifest that depends on a crate.
pub open spec fn dep_text(ident: Seq<char>, crate_dir: Seq<char>, package: Option<Seq<char>>) -> Seq<char> {
    match package {
        Some(pkg) => if pkg != ident {
            ident + " = { path = \""@ + crate_dir + "\", package = \""@ + pkg + "\" }\n"@
        } else {
            ident + " = { path = \""@ + crate_dir + "\" }\n"@
        },
        None => ident + " = { path = \""@ + crate_dir + "\" }\n"@,
    }
}

fn space(c: char) -> (r: bool)
    ensures
        r == is_space(c),
{
    let n: u32 = c as u32;
    (9 <= n && n <= 13) || n == 0x20 || n == 0x85 || n == 0xa0 || n == 0x1680 || (0x2000 <= n && n <= 0x200a) || n == 0x2028
        || n == 0x2029 || n == 0x202f || n == 0x205f || n == 0x3000
}

/// Where the text between `lo` and `hi` starts and ends without white space on both sides.
fn trimmed(cs: &Vec<char>, lo: usize, hi: usize) -> (r: (usize, usize))
    requires
        lo <= hi <= cs@.len(),
    ensures
        lo <= r.0 <= r.1 <= hi,
        cs@.subrange(r.0 as int, r.1 as int) == trim(cs@.subrange(lo as int, hi as int)),
{
    let mut a: usize = lo;
    while a < hi && space(cs[a])
        invariant
            lo <= a <= hi <= cs@.len(),
            trim_start(cs@.subrange(lo as int, hi as int)) == trim_start(cs@.subrange(a as int, hi as int)),
        ensures
            lo <= a <= hi <= cs@.len(),
            trim_start(cs@.subrange(lo as int, hi as int)) == cs@.subrange(a as int, hi as int),
        decreases hi - a,
    {
        assert(cs@.subrange(a as int, hi as int).drop_first() =~= cs@.subrange(a + 1, hi as int));
        a += 1;
    }
    let mut b: usize = hi;
    while b > a && space(cs[b - 1])
        invariant
            a <= b <= hi <= cs@.len(),
            trim_end(cs@.subrange(a as int, hi as int)) == trim_end(cs@.subrange(a as int, b as int)),
        ensures
            a <= b <= hi <= cs@.len(),
            trim_end(cs@.subrange(a as int, hi as int)) == cs@.subrange(a as int, b as int),
        decreases b,
    {
        assert(cs@.subrange(a as int, b as int).drop_last() =~= cs@.subrange(a as int, b - 1));
        b -= 1;
    }
    (a, b)
}

/// Where the first `c` between `lo` and `hi` is, or `hi` where there is none.
fn find_in(cs: &Vec<char>, c: char, lo: usize, hi: usize) -> (r: usize)
    requires
        lo <= hi <= cs@.len(),
    ensures
        lo <= r <= hi,
        r - lo == first_at(cs@.subrange(lo as int, hi as int), c, 0),
{
    let ghost s = cs@.subrange(lo as int, hi as int);
    let mut i: usize = lo;
    while i < hi && cs[i] != c
        invariant
            lo <= i <= hi <= cs@.len(),
            s == cs@.subrange(lo as int, hi as int),
            first_at(s, c, 0) == first_at(s, c, i - lo),
        decreases hi - i,
    {
        assert(s[i - lo] == cs@[i as int]);
        i += 1;
    }
    assert(i < hi ==> s[i - lo] == cs@[i as int]);
    i
}

fn is_word(cs: &Vec<char>, lo: usize, hi: usize, word: &str) -> (r: bool)
    requires
        lo <= hi <= cs@.len(),
    ensures
        r == (cs@.subrange(lo as int, hi as int) == word@),
{
    let found = crate::text::of_chars(cs, lo, hi);
    same(found.as_str(), word)
}

/// The `name` that the `[package]` section of a manifest declares.
///
/// A `name` of another section is not it.  Where the first `name` of the package section is not a
/// quoted string, there is none.
pub fn package_name(cargo_toml: &str) -> (r: Option<&str>)
    ensures
        match r {
            Some(name) => scan(cargo_toml@, false) == Some(name@),
            None => scan(cargo_toml@, false) is None,
        },
{
    let cs = to_chars(cargo_toml);
    let n: usize = cs.len();
    let mut in_package = false;
    let mut pos: usize = 0;
    assert(cs@.subrange(0, n as int) =~= cargo_toml@);
    while pos < n
        invariant
            pos <= n,
            n == cs@.len(),
            cs@ == cargo_toml@,
            scan(cargo_toml@, false) == scan(cs@.subrange(pos as int, n as int), in_package),
        decreases n - pos,
    {
        let ghost text = cs@.subrange(pos as int, n as int);
        let end: usize = find_in(&cs, '\n', pos, n);
        let (a, b) = trimmed(&cs, pos, end);
        let ghost line = cs@.subrange(a as int, b as int);
        let next: usize = if end < n { end + 1 } else { n };
        proof {
            assert(before(text, '\n') =~= cs@.subrange(pos as int, end as int));
            assert(behind(text, '\n') =~= cs@.subrange(next as int, n as int));
            assert(a < b ==> line[0] == cs@[a as int]);
        }
        if a == b || cs[a] == '#' {
            pos = next;
            continue;
        }
        if cs[a] == '[' {
            let close: usize = find_in(&cs, ']', a + 1, b);
            let (c, d) = trimmed(&cs, a + 1, close);
            proof {
                assert(line.drop_first() =~= cs@.subrange(a + 1, b as int));
                assert(before(line.drop_first(), ']') =~= cs@.subrange(a + 1, close as int));
            }
            in_package = is_word(&cs, c, d, "package");
            pos = next;
            continue;
        }
        let eq: usize = find_in(&cs, '=', a, b);
        if in_package && eq < b {
            let (c, d) = trimmed(&cs, a, eq);
            assert(before(line, '=') =~= cs@.subrange(a as int, eq as int));
            if is_word(&cs, c, d, "name") {
                let (e, f) = trimmed(&cs, eq + 1, b);
                assert(behind(line, '=') =~= cs@.subrange(eq + 1, b as int));
                let ghost value = cs@.subrange(e as int, f as int);
                assert(e < f ==> value[0] == cs@[e as int]);
                if e == f || (cs[e] != '"' && cs[e] != '\'') {
                    return None;
                }
                let quote: char = cs[e];
                let close: usize = find_in(&cs, quote, e + 1, f);
                assert(value.drop_first() =~= cs@.subrange(e + 1, f as int));
                if close == f {
                    return None;
                }
                assert(value.drop_first().subrange(0, close - (e + 1)) =~= cs@.subrange(e + 1, close as int));
                return Some(cargo_toml.substring_char(e + 1, close));
            }
        }
        pos = next;
    }
    None
}

/// The line that the `[dependencies]` of the harness needs for a project's crate: the package is
/// spelled out only where it is not the identifier.
pub fn dep_line(ident: &str, crate_dir: &str, package: Option<&str>) -> (r: String)
    ensures
        r@ == dep_text(ident@, crate_dir@, match package {
            Some(pkg) => Some(pkg@),
            None => None,
        }),
{
    let head = ident.to_owned().concat(" = { path = \"").concat(crate_dir);
    match package {
        Some(pkg) => {
            if same(pkg, ident) {
                head.concat("\" }\n")
            } else {
                head.concat("\", package = \"").concat(pkg).concat("\" }\n")
            }
        },
        None => head.concat("\" }\n"),
    }
}

/// A line of the text opens the package section.
pub open spec fn opens_package(text: Seq<char>) -> bool
    decreases text.len(),
{
    text.len() > 0 && {
        proof {
            first_at_bounds(text, '\n', 0);
        }
        let line = trim(before(text, '\n'));
        (!is_silent(line) && line[0] == '[' && section(line) == "package"@) || opens_package(behind(text, '\n'))
    }
}

/// A manifest without a package section has no package name, whatever `name` its other sections
/// have.
pub proof fn no_section_no_name(text: Seq<char>)
    requires
        !opens_package(text),
    ensures
        scan(text, false) is None,
    decreases text.len(),
{
    if text.len() > 0 {
        first_at_bounds(text, '\n', 0);
        no_section_no_name(behind(text, '\n'));
    }
}

/// A blank line or a comment in front changes nothing.
pub proof fn silent_lines_do_not_matter(line: Seq<char>, text: Seq<char>, in_package: bool)
    requires
        !line.contains('\n'),
        is_silent(trim(line)),
    ensures
        scan(line.push('\n') + text, in_package) == scan(text, in_package),
{
    let whole = line.push('\n') + text;
    first_at_bounds(whole, '\n', 0);
    let k = first_at(whole, '\n', 0);
    assert(whole[line.len() as int] == '\n');
    assert(k == line.len()) by {
        if k < line.len() {
            assert(whole[k] == line[k]);
            assert(line.contains('\n'));
        }
    }
    assert(before(whole, '\n') =~= line);
    assert(behind(whole, '\n') =~= text);
}

/// A crate whose package has the name of its identifier is depended on as one whose package is not
/// known.
pub proof fn same_name_needs_no_redirect(ident: Seq<char>, crate_dir: Seq<char>)
    ensures
        dep_text(ident, crate_dir, Some(ident)) == dep_text(ident, crate_dir, None),
{
}

} // verus!
