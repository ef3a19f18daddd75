//! Text building blocks: comparison, searching, splitting and decimal rendering.
use vstd::prelude::*;
use vstd::string::*;

verus! {

/// `String::push` appends one character.
pub assume_specification[ String::push ](s: &mut String, c: char)
    ensures
        final(s)@ == old(s)@.push(c),
;

/// Whether two texts hold the same characters.
pub fn same(a: &str, b: &str) -> (r: bool)
    ensures
        r == (a@ == b@),
{
    a.to_owned() == b.to_owned()
}

/// `s` starts at `at` with `pat`.
pub open spec fn occurs_at(s: Seq<char>, pat: Seq<char>, at: int) -> bool {
    0 <= at && at + pat.len() <= s.len() && s.subrange(at, at + pat.len()) == pat
}

/// `pat` occurs somewhere in `s`.
pub open spec fn occurs(s: Seq<char>, pat: Seq<char>) -> bool {
    exists|at: int| #[trigger] occurs_at(s, pat, at)
}

/// The position of the first `c` in `s`, if there is one.
pub open spec fn is_first(s: Seq<char>, c: char, at: int) -> bool {
    0 <= at < s.len() && s[at] == c && forall|j: int| 0 <= j < at ==> s[j] != c
}

/// The position of the last `c` in `s`, if there is one.
pub open spec fn is_last(s: Seq<char>, c: char, at: int) -> bool {
    0 <= at < s.len() && s[at] == c && forall|j: int| at < j < s.len() ==> s[j] != c
}

/// The characters of a text.
pub fn to_chars(s: &str) -> (r: Vec<char>)
    ensures
        r@ == s@,
{
    let mut out: Vec<char> = Vec::new();
    for c in it: s.chars()
        invariant
            it.seq() == s@,
            out@ == s@.take(it.index() as int),
    {
        out.push(c);
        assert(s@.take(it.index() as int + 1) =~= s@.take(it.index() as int).push(s@[it.index() as int]));
    }
    assert(s@.take(s@.len() as int) =~= s@);
    out
}

/// The text made of `cs[from..to]`.
pub fn of_chars(cs: &Vec<char>, from: usize, to: usize) -> (r: String)
    requires
        from <= to <= cs@.len(),
    ensures
        r@ == cs@.subrange(from as int, to as int),
{
    let mut out = String::new();
    let mut i: usize = from;
    while i < to
        invariant
            from <= i <= to <= cs@.len(),
            out@ == cs@.subrange(from as int, i as int),
        decreases to - i,
    {
        out.push(cs[i]);
        i += 1;
        assert(cs@.subrange(from as int, i as int) == cs@.subrange(from as int, i - 1).push(
            cs@[i - 1],
        ));
    }
    out
}

/// The position of the last `c` in `s`.
pub fn rfind(s: &str, c: char) -> (r: Option<usize>)
    ensures
        match r {
            Some(i) => is_last(s@, c, i as int),
            None => !s@.contains(c),
        },
{
    let cs = to_chars(s);
    let mut i: usize = cs.len();
    while i > 0
        invariant
            i <= cs@.len(),
            cs@ == s@,
            forall|j: int| i <= j < cs@.len() ==> cs@[j] != c,
        decreases i,
    {
        i -= 1;
        if cs[i] == c {
            return Some(i);
        }
    }
    None
}

/// The position of the first `c` in `s`.
pub fn find(s: &str, c: char) -> (r: Option<usize>)
    ensures
        match r {
            Some(i) => is_first(s@, c, i as int),
            None => !s@.contains(c),
        },
{
    let cs = to_chars(s);
    let mut i: usize = 0;
    while i < cs.len()
        invariant
            i <= cs@.len(),
            cs@ == s@,
            forall|j: int| 0 <= j < i ==> cs@[j] != c,
        decreases cs@.len() - i,
    {
        if cs[i] == c {
            return Some(i);
        }
        i += 1;
    }
    None
}

/// What stands behind the last `sep`, or the whole text where there is none.
pub open spec fn after_last(s: Seq<char>, sep: char) -> Seq<char> {
    if s.contains(sep) {
        let at = choose|at: int| is_last(s, sep, at);
        s.subrange(at + 1, s.len() as int)
    } else {
        s
    }
}

/// What stands before the last `sep`, or nothing where there is none.
pub open spec fn before_last(s: Seq<char>, sep: char) -> Option<Seq<char>> {
    if s.contains(sep) {
        let at = choose|at: int| is_last(s, sep, at);
        Some(s.subrange(0, at))
    } else {
        None
    }
}

proof fn last_is_unique(s: Seq<char>, c: char, i: int, j: int)
    requires
        is_last(s, c, i),
        is_last(s, c, j),
    ensures
        i == j,
{
    if i < j {
        assert(s[j] != c);
    }
    if j < i {
        assert(s[i] != c);
    }
}

/// The part of `s` behind its last `sep` (all of it where there is none).
pub fn base_name(s: &str, sep: char) -> (r: String)
    ensures
        r@ == after_last(s@, sep),
{
    match rfind(s, sep) {
        Some(i) => {
            let cs = to_chars(s);
            let n: usize = cs.len();
            proof {
                let at = choose|at: int| is_last(s@, sep, at);
                last_is_unique(s@, sep, at, i as int);
            }
            of_chars(&cs, i + 1, n)
        },
        None => s.to_owned(),
    }
}

/// Splits `s` at its last `sep` into what stands before and behind it.
pub fn rsplit_once(s: &str, sep: char) -> (r: Option<(String, String)>)
    ensures
        match r {
            Some((a, b)) => before_last(s@, sep) == Some(a@) && b@ == after_last(s@, sep),
            None => before_last(s@, sep) is None,
        },
{
    match rfind(s, sep) {
        Some(i) => {
            let cs = to_chars(s);
            let n: usize = cs.len();
            proof {
                let at = choose|at: int| is_last(s@, sep, at);
                last_is_unique(s@, sep, at, i as int);
            }
            Some((of_chars(&cs, 0, i), of_chars(&cs, i + 1, n)))
        },
        None => None,
    }
}

/// The decimal digit for `d`.
pub open spec fn digit(d: nat) -> char {
    if d == 0 { '0' } else if d == 1 { '1' } else if d == 2 { '2' } else if d == 3 { '3' }
    else if d == 4 { '4' } else if d == 5 { '5' } else if d == 6 { '6' } else if d == 7 { '7' }
    else if d == 8 { '8' } else { '9' }
}

/// `n` in decimal, without leading zeros.
pub open spec fn decimal(n: nat) -> Seq<char>
    decreases n,
{
    if n < 10 {
        seq![digit(n)]
    } else {
        decimal(n / 10).push(digit(n % 10))
    }
}

fn digit_char(d: u64) -> (c: char)
    requires
        d < 10,
    ensures
        c == digit(d as nat),
{
    if d == 0 { '0' } else if d == 1 { '1' } else if d == 2 { '2' } else if d == 3 { '3' }
    else if d == 4 { '4' } else if d == 5 { '5' } else if d == 6 { '6' } else if d == 7 { '7' }
    else if d == 8 { '8' } else { '9' }
}

/// Renders `n` in decimal.
pub fn render_decimal(n: u64) -> (r: String)
    ensures
        r@ == decimal(n as nat),
    decreases n,
{
    if n < 10 {
        let mut out = String::new();
        out.push(digit_char(n));
        assert(out@ == seq![digit(n as nat)]);
        out
    } else {
        let mut out = render_decimal(n / 10);
        out.push(digit_char(n % 10));
        out
    }
}

/// The order of texts from position `i` on: by the first character in which they differ, and the
/// shorter one first where there is none.
pub open spec fn less_from(a: Seq<char>, b: Seq<char>, i: int) -> bool
    decreases b.len() - i,
{
    if i < 0 || i >= b.len() {
        false
    } else if i >= a.len() {
        true
    } else if a[i] == b[i] {
        less_from(a, b, i + 1)
    } else {
        (a[i] as int) < (b[i] as int)
    }
}

/// The order of texts, by code points.
pub open spec fn less(a: Seq<char>, b: Seq<char>) -> bool {
    less_from(a, b, 0)
}

/// The texts do not differ from position `i` on.
spec fn agree_from(a: Seq<char>, b: Seq<char>, i: int) -> bool {
    a.len() == b.len() && forall|k: int| i <= k < a.len() ==> #[trigger] a[k] == b[k]
}

proof fn less_orders_from(a: Seq<char>, b: Seq<char>, c: Seq<char>, i: int)
    requires
        0 <= i,
    ensures
        !less_from(a, a, i),
        less_from(a, b, i) && less_from(b, c, i) ==> less_from(a, c, i),
        i <= a.len() && i <= b.len() ==> less_from(a, b, i) || less_from(b, a, i) || agree_from(a, b, i),
    decreases a.len() + b.len() + c.len() - i,
{
    if i < a.len() || i < b.len() || i < c.len() {
        less_orders_from(a, b, c, i + 1);
        if i < a.len() && i < b.len() && a[i] == b[i] && agree_from(a, b, i + 1) {
            assert forall|k: int| i <= k < a.len() implies #[trigger] a[k] == b[k] by {}
        }
    }
}

/// The order of texts is a strict total order.
pub proof fn less_orders(a: Seq<char>, b: Seq<char>, c: Seq<char>)
    ensures
        !less(a, a),
        less(a, b) && less(b, c) ==> less(a, c),
        less(a, b) || less(b, a) || a == b,
{
    less_orders_from(a, b, c, 0);
    if agree_from(a, b, 0) {
        assert(a =~= b);
    }
}

/// Whether one text comes before another.
pub fn less_text(a: &str, b: &str) -> (r: bool)
    ensures
        r == less(a@, b@),
{
    let xs = to_chars(a);
    let ys = to_chars(b);
    let mut i: usize = 0;
    while i < xs.len() && i < ys.len() && xs[i] == ys[i]
        invariant
            xs@ == a@,
            ys@ == b@,
            i <= xs@.len(),
            i <= ys@.len(),
            less(a@, b@) == less_from(a@, b@, i as int),
        decreases xs@.len() - i,
    {
        i += 1;
    }
    if i >= ys.len() {
        false
    } else if i >= xs.len() {
        true
    } else {
        below(xs[i], ys[i])
    }
}

fn below(x: char, y: char) -> (r: bool)
    ensures
        r == ((x as int) < (y as int)),
{
    (x as u32) < (y as u32)
}

} // verus!
