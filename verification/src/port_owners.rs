//! Which processes listen on a TCP port, read from the output of `lsof -ti`
//! (Unix) or `netstat -ano -p tcp` (Windows).
use vstd::prelude::*;

use crate::clash::{decimal_value, is_digit};
use crate::text::{
    chars_of, contains, contains_seq, decimal, is_white_space, is_white_space_char, push_decimal,
    trim, trim_bounds, trim_end,
};

verus! {

broadcast use vstd::string::group_string_axioms;

// ---------------------------------------------------------------------------
// Lines and numbers
// ---------------------------------------------------------------------------
/// `line` without one carriage return at its end.
pub open spec fn without_cr(line: Seq<char>) -> Seq<char> {
    if line.len() > 0 && line.last() == '\r' {
        line.drop_last()
    } else {
        line
    }
}

/// The finished lines of `s` and the line still open at its end.
pub open spec fn line_split(s: Seq<char>) -> (Seq<Seq<char>>, Seq<char>)
    decreases s.len(),
{
    if s.len() == 0 {
        (Seq::empty(), Seq::empty())
    } else {
        let (done, cur) = line_split(s.drop_last());
        if s.last() == '\n' {
            (done.push(without_cr(cur)), Seq::empty())
        } else {
            (done, cur.push(s.last()))
        }
    }
}

/// The lines of `s` as `str::lines` gives them: split at line feeds, each
/// without the carriage return before its line feed; a final line feed ends the
/// last line.
pub open spec fn split_lines(s: Seq<char>) -> Seq<Seq<char>> {
    let (done, cur) = line_split(s);
    if cur.len() > 0 {
        done.push(cur)
    } else {
        done
    }
}

/// The lines of `v`.
pub fn lines_of(v: &Vec<char>) -> (r: Vec<Vec<char>>)
    ensures
        r@.map_values(|l: Vec<char>| l@) == split_lines(v@),
{
    let mut done: Vec<Vec<char>> = Vec::new();
    let mut cur: Vec<char> = Vec::new();
    let mut i: usize = 0;
    while i < v.len()
        invariant
            i <= v@.len(),
            (done@.map_values(|l: Vec<char>| l@), cur@) == line_split(v@.take(i as int)),
        decreases v@.len() - i,
    {
        assert(v@.take(i + 1).drop_last() =~= v@.take(i as int));
        let c = v[i];
        if c == '\n' {
            let mut line = cur;
            if line.len() > 0 && line[line.len() - 1] == '\r' {
                line.pop();
                assert(line@ =~= without_cr(cur@));
            }
            cur = Vec::new();
            let ghost before = done@;
            done.push(line);
            assert(done@.map_values(|l: Vec<char>| l@) =~= before.map_values(|l: Vec<char>| l@).push(
                line@,
            ));
        } else {
            cur.push(c);
        }
        i = i + 1;
    }
    assert(v@.take(i as int) =~= v@);
    if cur.len() > 0 {
        let ghost before = done@;
        let last = cur;
        done.push(last);
        assert(done@.map_values(|l: Vec<char>| l@) =~= before.map_values(|l: Vec<char>| l@).push(
            last@,
        ));
    }
    done
}

/// All characters of `s` are ASCII digits.
pub open spec fn all_digits(s: Seq<char>) -> bool {
    forall|i: int| 0 <= i < s.len() ==> is_digit(#[trigger] s[i])
}

/// The number `s` spells as `i32::from_str` reads it: an optional `+` or `-`,
/// then one or more ASCII digits, the value within `i32`.
pub open spec fn parsed_i32(s: Seq<char>) -> Option<i32> {
    let signed = s.len() > 0 && (s[0] == '-' || s[0] == '+');
    let digits = if signed {
        s.drop_first()
    } else {
        s
    };
    let v = if s.len() > 0 && s[0] == '-' {
        -decimal_value(digits)
    } else {
        decimal_value(digits)
    };
    if digits.len() > 0 && all_digits(digits) && i32::MIN <= v <= i32::MAX {
        Some(v as i32)
    } else {
        None
    }
}

proof fn lemma_decimal_nonneg(p: Seq<char>)
    requires
        all_digits(p),
    ensures
        decimal_value(p) >= 0,
    decreases p.len(),
{
    if p.len() > 0 {
        assert(all_digits(p.drop_last())) by {
            assert forall|i: int| 0 <= i < p.drop_last().len() implies is_digit(
                #[trigger] p.drop_last()[i],
            ) by {
                assert(p.drop_last()[i] == p[i]);
            }
        }
        lemma_decimal_nonneg(p.drop_last());
        assert(is_digit(p[p.len() - 1]));
    }
}

/// The number `v` spells (see `parsed_i32`).
pub fn parse_i32(v: &Vec<char>) -> (r: Option<i32>)
    ensures
        r == parsed_i32(v@),
{
    let n = v.len();
    let signed = n > 0 && (v[0] == '-' || v[0] == '+');
    let neg = n > 0 && v[0] == '-';
    let start: usize = if signed {
        1
    } else {
        0
    };
    let ghost digits = if signed {
        v@.drop_first()
    } else {
        v@
    };
    if start == n {
        return None;
    }
    let mut acc: i64 = 0;
    let mut big = false;
    let mut i: usize = start;
    while i < n
        invariant
            start <= i <= n,
            n == v@.len(),
            digits == v@.subrange(start as int, n as int),
            digits == (if v@.len() > 0 && (v@[0] == '-' || v@[0] == '+') {
                v@.drop_first()
            } else {
                v@
            }),
            all_digits(digits.take(i - start)),
            !big ==> acc == decimal_value(digits.take(i - start)) && 0 <= acc <= 2147483648,
            big ==> decimal_value(digits.take(i - start)) > 2147483648,
        decreases n - i,
    {
        let c = v[i];
        if !('0' <= c && c <= '9') {
            proof {
                assert(digits[i - start] == c);
                assert(!is_digit(digits[i - start]));
                assert(!all_digits(digits));
            }
            return None;
        }
        let ghost k = (i - start) as int;
        proof {
            assert(digits.take(k + 1).drop_last() =~= digits.take(k));
            assert(digits.take(k + 1).last() == c);
            assert(all_digits(digits.take(k + 1))) by {
                assert forall|j: int| 0 <= j < k + 1 implies is_digit(#[trigger] digits.take(k + 1)[j]) by {
                    if j < k {
                        assert(digits.take(k + 1)[j] == digits.take(k)[j]);
                    }
                }
            }
            lemma_decimal_nonneg(digits.take(k));
        }
        if !big {
            let d = (c as u32 - 48) as i64;
            acc = acc * 10 + d;
            if acc > 2147483648 {
                big = true;
            }
        }
        i = i + 1;
    }
    assert(digits.take(n - start) =~= digits);
    if big {
        return None;
    }
    if neg {
        Some((-acc) as i32)
    } else if acc > 2147483647 {
        None
    } else {
        Some(acc as i32)
    }
}

// ---------------------------------------------------------------------------
// lsof
// ---------------------------------------------------------------------------
/// The process ids `lsof -ti` lists: each line that is a number once trimmed.
pub open spec fn lsof_pids(lines: Seq<Seq<char>>) -> Seq<i32>
    decreases lines.len(),
{
    if lines.len() == 0 {
        Seq::empty()
    } else {
        let prev = lsof_pids(lines.drop_last());
        match parsed_i32(trim(lines.last())) {
            Some(p) => prev.push(p),
            None => prev,
        }
    }
}

/// The process ids in the output of `lsof -ti tcp:<port>`, in order.
pub fn parse_lsof_pids(output: &str) -> (r: Vec<i32>)
    ensures
        r@ == lsof_pids(split_lines(output@)),
{
    let lines = lines_of(&chars_of(output));
    let ghost ls = split_lines(output@);
    let mut pids: Vec<i32> = Vec::new();
    let mut i: usize = 0;
    while i < lines.len()
        invariant
            lines@.map_values(|l: Vec<char>| l@) == ls,
            i <= lines@.len(),
            pids@ == lsof_pids(ls.take(i as int)),
        decreases lines@.len() - i,
    {
        assert(ls.take(i + 1).drop_last() =~= ls.take(i as int));
        assert(ls[i as int] == lines@[i as int]@);
        let line = &lines[i];
        let (lo, hi) = trim_bounds(line);
        let mut t: Vec<char> = Vec::new();
        let mut k: usize = lo;
        while k < hi
            invariant
                lo <= k <= hi <= line@.len(),
                t@ == line@.subrange(lo as int, k as int),
            decreases hi - k,
        {
            t.push(line[k]);
            k = k + 1;
        }
        match parse_i32(&t) {
            Some(p) => pids.push(p),
            None => {},
        }
        i = i + 1;
    }
    assert(ls.take(i as int) =~= ls);
    pids
}

// ---------------------------------------------------------------------------
// netstat
// ---------------------------------------------------------------------------
/// The run of non-white-space characters at the end of `s`.
pub open spec fn last_run(s: Seq<char>) -> Seq<char>
    decreases s.len(),
{
    if s.len() == 0 || is_white_space(s.last()) {
        Seq::empty()
    } else {
        last_run(s.drop_last()).push(s.last())
    }
}

/// The last white-space separated word of `s` (`split_whitespace().last()`).
pub open spec fn last_word(s: Seq<char>) -> Option<Seq<char>> {
    let t = trim_end(s);
    if t.len() == 0 {
        None
    } else {
        Some(last_run(t))
    }
}

/// The process id a `netstat -ano` line gives for a listener on `port`: the
/// line must say `LISTENING` and hold `:<port>`, and its last word is the id.
pub open spec fn netstat_line_pid(line: Seq<char>, port: u16) -> Option<i32> {
    if contains_seq(line, "LISTENING"@) && contains_seq(line, ":"@ + decimal(port as nat)) {
        match last_word(line) {
            Some(w) => parsed_i32(w),
            None => None,
        }
    } else {
        None
    }
}

/// The ids of the listeners on `port` in netstat's lines, in line order.
pub open spec fn netstat_pids(lines: Seq<Seq<char>>, port: u16) -> Seq<i32>
    decreases lines.len(),
{
    if lines.len() == 0 {
        Seq::empty()
    } else {
        let prev = netstat_pids(lines.drop_last(), port);
        match netstat_line_pid(lines.last(), port) {
            Some(p) => prev.push(p),
            None => prev,
        }
    }
}

/// Each element smaller than the next.
pub open spec fn strictly_increasing(s: Seq<i32>) -> bool {
    forall|i: int, j: int| 0 <= i < j < s.len() ==> #[trigger] s[i] < #[trigger] s[j]
}

/// The last word of `v`, if it has one.
fn last_word_of(v: &Vec<char>) -> (r: Option<Vec<char>>)
    ensures
        match r {
            Some(w) => last_word(v@) == Some(w@),
            None => last_word(v@) is None,
        },
{
    let mut j: usize = v.len();
    assert(v@.take(j as int) =~= v@);
    while j > 0 && is_white_space_char(v[j - 1])
        invariant
            j <= v@.len(),
            trim_end(v@) == trim_end(v@.take(j as int)),
        decreases j,
    {
        assert(v@.take(j as int).drop_last() =~= v@.take(j - 1));
        j = j - 1;
    }
    if j == 0 {
        assert(v@.take(0) =~= Seq::<char>::empty());
        return None;
    }
    assert(v@.take(j as int).drop_last() =~= v@.take(j - 1));
    assert(trim_end(v@) == v@.take(j as int));
    let mut i: usize = j;
    assert(v@.subrange(j as int, j as int) =~= Seq::<char>::empty());
    while i > 0 && !is_white_space_char(v[i - 1])
        invariant
            i <= j <= v@.len(),
            last_run(v@.take(j as int)) == last_run(v@.take(i as int)) + v@.subrange(i as int, j as int),
        decreases i,
    {
        assert(v@.take(i as int).drop_last() =~= v@.take(i - 1));
        assert(v@.subrange(i - 1, j as int) =~= seq![v@[i - 1]] + v@.subrange(i as int, j as int));
        assert(last_run(v@.take(i - 1)).push(v@[i - 1]) + v@.subrange(i as int, j as int)
            =~= last_run(v@.take(i - 1)) + v@.subrange(i - 1, j as int));
        i = i - 1;
    }
    if i > 0 {
        assert(v@.take(i as int).drop_last() =~= v@.take(i - 1));
    }
    assert(last_run(v@.take(i as int)) =~= Seq::<char>::empty());
    let mut w: Vec<char> = Vec::new();
    let mut k: usize = i;
    while k < j
        invariant
            i <= k <= j <= v@.len(),
            w@ == v@.subrange(i as int, k as int),
        decreases j - k,
    {
        w.push(v[k]);
        k = k + 1;
    }
    assert(last_run(v@.take(j as int)) =~= w@);
    Some(w)
}

proof fn lemma_push_to_set(s: Seq<i32>, x: i32)
    ensures
        s.push(x).to_set() == s.to_set().insert(x),
{
    broadcast use vstd::seq_lib::group_seq_properties;

    assert(s.push(x).to_set() =~= s.to_set().insert(x));
}

/// Adds `x` to a strictly increasing list unless it is there already.
fn insert_sorted_unique(list: &mut Vec<i32>, x: i32)
    requires
        strictly_increasing(old(list)@),
    ensures
        strictly_increasing(final(list)@),
        final(list)@.to_set() == old(list)@.to_set().insert(x),
{
    let mut pos: usize = 0;
    while pos < list.len() && list[pos] < x
        invariant
            pos <= list@.len(),
            forall|j: int| 0 <= j < pos ==> #[trigger] list@[j] < x,
        decreases list@.len() - pos,
    {
        pos = pos + 1;
    }
    if pos < list.len() && list[pos] == x {
        assert(list@.contains(x));
        assert(list@.to_set() =~= list@.to_set().insert(x));
        return;
    }
    let ghost before = list@;
    list.insert(pos, x);
    assert forall|i: int, j: int| 0 <= i < j < list@.len() implies #[trigger] list@[i]
        < #[trigger] list@[j] by {
        if j < pos {
            assert(list@[i] == before[i] && list@[j] == before[j]);
        } else if j == pos {
            assert(list@[i] == before[i]);
        } else if i < pos {
            assert(list@[i] == before[i] && list@[j] == before[j - 1]);
        } else if i == pos {
            assert(list@[j] == before[j - 1]);
            assert(before[pos as int] > x);
            assert(before[pos as int] <= before[j - 1]);
        } else {
            assert(list@[i] == before[i - 1] && list@[j] == before[j - 1]);
        }
    }
    assert(list@[pos as int] == x);
    assert forall|a: i32| list@.to_set().contains(a) == before.to_set().insert(x).contains(a) by {
        if a == x {
            assert(list@[pos as int] == a);
        }
        if before.contains(a) {
            let w = choose|w: int| 0 <= w < before.len() && before[w] == a;
            if w < pos {
                assert(list@[w] == a);
            } else {
                assert(list@[w + 1] == a);
            }
        }
        if list@.contains(a) {
            let w = choose|w: int| 0 <= w < list@.len() && list@[w] == a;
            if w < pos {
                assert(before[w] == a);
            } else if w > pos {
                assert(before[w - 1] == a);
            }
        }
    }
    assert(list@.to_set() =~= before.to_set().insert(x));
}

/// The ids of the processes listening on `port` in the output of
/// `netstat -ano -p tcp`: sorted, each once.
pub fn parse_netstat_pids(output: &str, port: u16) -> (r: Vec<i32>)
    ensures
        strictly_increasing(r@),
        r@.to_set() == netstat_pids(split_lines(output@), port).to_set(),
{
    let lines = lines_of(&chars_of(output));
    let ghost ls = split_lines(output@);
    let mut needle: String = String::new();
    needle.push(':');
    push_decimal(&mut needle, port as u64);
    proof {
        reveal_strlit(":");
    }
    let needle_chars = chars_of(needle.as_str());
    let listening = chars_of("LISTENING");
    assert(needle_chars@ =~= ":"@ + decimal(port as nat));
    let mut pids: Vec<i32> = Vec::new();
    let mut i: usize = 0;
    assert(ls.take(0) =~= Seq::<Seq<char>>::empty());
    assert(pids@.to_set() =~= Set::<i32>::empty());
    while i < lines.len()
        invariant
            lines@.map_values(|l: Vec<char>| l@) == ls,
            needle_chars@ == ":"@ + decimal(port as nat),
            listening@ == "LISTENING"@,
            i <= lines@.len(),
            strictly_increasing(pids@),
            pids@.to_set() == netstat_pids(ls.take(i as int), port).to_set(),
        decreases lines@.len() - i,
    {
        assert(ls.take(i + 1).drop_last() =~= ls.take(i as int));
        assert(ls[i as int] == lines@[i as int]@);
        let line = &lines[i];
        let ghost prev = netstat_pids(ls.take(i as int), port);
        if contains(line, &listening) && contains(line, &needle_chars) {
            match last_word_of(line) {
                Some(w) => match parse_i32(&w) {
                    Some(p) => {
                        insert_sorted_unique(&mut pids, p);
                        proof {
                            lemma_push_to_set(prev, p);
                        }
                    },
                    None => {},
                },
                None => {},
            }
        }
        i = i + 1;
    }
    assert(ls.take(i as int) =~= ls);
    pids
}

} // verus!
