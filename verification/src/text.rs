//! Rules on text, stated over the characters of a string: decimal numbers,
//! substrings and suffixes, white space, and the names of files in paths.

use vstd::prelude::*;

verus! {

/// The number that a decimal digit stands for, if `c` is one.
pub open spec fn digit_value(c: char) -> Option<nat> {
    match c {
        '0' => Some(0nat),
        '1' => Some(1nat),
        '2' => Some(2nat),
        '3' => Some(3nat),
        '4' => Some(4nat),
        '5' => Some(5nat),
        '6' => Some(6nat),
        '7' => Some(7nat),
        '8' => Some(8nat),
        '9' => Some(9nat),
        _ => None,
    }
}

/// The digit that writes a number below ten.
pub open spec fn digit_char(d: nat) -> char {
    if d == 0 {
        '0'
    } else if d == 1 {
        '1'
    } else if d == 2 {
        '2'
    } else if d == 3 {
        '3'
    } else if d == 4 {
        '4'
    } else if d == 5 {
        '5'
    } else if d == 6 {
        '6'
    } else if d == 7 {
        '7'
    } else if d == 8 {
        '8'
    } else {
        '9'
    }
}

/// The value of a non-empty run of decimal digits; `None` for anything else.
pub open spec fn digits_value(s: Seq<char>) -> Option<nat>
    decreases s.len(),
{
    if s.len() == 0 {
        None
    } else if s.len() == 1 {
        digit_value(s[0])
    } else {
        match (digits_value(s.drop_last()), digit_value(s.last())) {
            (Some(high), Some(low)) => Some(high * 10 + low),
            _ => None,
        }
    }
}

/// The value of an unsigned decimal numeral: an optional `+` and then at
/// least one digit, with nothing before or after.
pub open spec fn numeral_value(s: Seq<char>) -> Option<nat> {
    if s.len() > 0 && s[0] == '+' {
        digits_value(s.subrange(1, s.len() as int))
    } else {
        digits_value(s)
    }
}

/// The shortest decimal writing of `n`.
pub open spec fn decimal(n: nat) -> Seq<char>
    decreases n,
{
    if n < 10 {
        seq![digit_char(n)]
    } else {
        decimal(n / 10).push(digit_char(n % 10))
    }
}

fn digit_of(c: char) -> (d: Option<u64>)
    ensures
        d matches Some(v) ==> digit_value(c) == Some(v as nat) && v < 10,
        d is None ==> digit_value(c) is None,
{
    match c {
        '0' => Some(0),
        '1' => Some(1),
        '2' => Some(2),
        '3' => Some(3),
        '4' => Some(4),
        '5' => Some(5),
        '6' => Some(6),
        '7' => Some(7),
        '8' => Some(8),
        '9' => Some(9),
        _ => None,
    }
}

/// A run of digits has a value exactly when each of its non-empty prefixes
/// has one, and a prefix is never worth more than the whole.
proof fn lemma_digits_prefix(s: Seq<char>, k: int)
    requires
        0 < k <= s.len(),
    ensures
        digits_value(s) is Some ==> digits_value(s.subrange(0, k)) is Some
            && digits_value(s.subrange(0, k))->0 <= digits_value(s)->0,
    decreases s.len(),
{
    if k == s.len() {
        assert(s.subrange(0, k) == s);
    } else {
        assert(s.drop_last().subrange(0, k) == s.subrange(0, k));
        lemma_digits_prefix(s.drop_last(), k);
    }
}

/// Reads an unsigned decimal numeral that is worth at most `max`.
pub fn parse_decimal(s: &str, max: u64) -> (r: Option<u64>)
    ensures
        (r == match numeral_value(s@) {
            Some(v) => if v <= max {
                Some(v as u64)
            } else {
                None
            },
            None => None::<u64>,
        }),
{
    let n: usize = s.unicode_len();
    let mut start: usize = 0;
    if n > 0 && s.get_char(0) == '+' {
        start = 1;
    }
    if start == n {
        return None;
    }
    let ghost body = s@.subrange(start as int, n as int);
    assert(numeral_value(s@) == digits_value(body)) by {
        if start == 0 {
            assert(body == s@);
        }
    }
    let mut acc: u64 = 0;
    let mut i: usize = start;
    while i < n
        invariant
            start <= i <= n,
            start < n,
            n == s@.len(),
            body == s@.subrange(start as int, n as int),
            numeral_value(s@) == digits_value(body),
            acc <= max,
            i == start ==> acc == 0,
            i > start ==> digits_value(body.subrange(0, i - start)) == Some(acc as nat),
        decreases n - i,
    {
        let c = s.get_char(i);
        let ghost upto = body.subrange(0, i - start + 1);
        proof {
            assert(upto.last() == c);
            assert(upto.drop_last() == body.subrange(0, i - start));
            lemma_digits_prefix(body, i - start + 1);
            assert(digits_value(upto) == if i == start {
                digit_value(c)
            } else {
                match digit_value(c) {
                    Some(low) => Some(acc as nat * 10 + low),
                    None => None,
                }
            });
        }
        match digit_of(c) {
            None => {
                return None;
            },
            Some(d) => {
                if d > max || acc > (max - d) / 10 {
                    return None;
                }
                acc = acc * 10 + d;
            },
        }
        i = i + 1;
    }
    assert(body.subrange(0, n - start) == body);
    Some(acc)
}

fn digit_text(d: u64) -> (s: &'static str)
    requires
        d < 10,
    ensures
        s@ == seq![digit_char(d as nat)],
{
    proof {
        reveal_strlit("0");
        reveal_strlit("1");
        reveal_strlit("2");
        reveal_strlit("3");
        reveal_strlit("4");
        reveal_strlit("5");
        reveal_strlit("6");
        reveal_strlit("7");
        reveal_strlit("8");
        reveal_strlit("9");
    }
    let s = if d == 0 {
        "0"
    } else if d == 1 {
        "1"
    } else if d == 2 {
        "2"
    } else if d == 3 {
        "3"
    } else if d == 4 {
        "4"
    } else if d == 5 {
        "5"
    } else if d == 6 {
        "6"
    } else if d == 7 {
        "7"
    } else if d == 8 {
        "8"
    } else {
        "9"
    };
    assert(s@ =~= seq![digit_char(d as nat)]);
    s
}

/// Writes `n` in decimal, without sign or leading zeros.
pub fn to_decimal(n: u64) -> (s: String)
    ensures
        s@ == decimal(n as nat),
    decreases n,
{
    if n < 10 {
        String::from_str(digit_text(n))
    } else {
        let high = to_decimal(n / 10);
        let s = high.concat(digit_text(n % 10));
        assert(s@ =~= decimal(n as nat));
        s
    }
}

/// Reading back what `decimal` wrote gives the number again.
pub proof fn lemma_decimal_round_trip(n: nat)
    ensures
        decimal(n).len() > 0,
        decimal(n)[0] != '+',
        digits_value(decimal(n)) == Some(n),
        numeral_value(decimal(n)) == Some(n),
    decreases n,
{
    if n >= 10 {
        lemma_decimal_round_trip(n / 10);
        let high = decimal(n / 10);
        let whole = high.push(digit_char(n % 10));
        assert(whole.drop_last() == high);
        assert(whole.last() == digit_char(n % 10));
        assert(digit_value(digit_char(n % 10)) == Some(n % 10));
        assert(whole[0] == high[0]);
    }
}

/// The characters of a text that may be missing.
pub open spec fn text_of(t: Option<&str>) -> Option<Seq<char>> {
    match t {
        Some(s) => Some(s@),
        None => None,
    }
}

/// A position that may be missing, as a number.
pub open spec fn position_of(p: Option<usize>) -> Option<int> {
    match p {
        Some(i) => Some(i as int),
        None => None,
    }
}

/// Tells whether two texts hold the same characters.
pub fn same_text(a: &str, b: &str) -> (r: bool)
    ensures
        r == (a@ == b@),
{
    String::from_str(a) == String::from_str(b)
}

/// The characters of a string, one by one.
pub fn chars_of(s: &str) -> (v: Vec<char>)
    ensures
        v@ == s@,
{
    let mut v: Vec<char> = Vec::new();
    for c in it: s.chars()
        invariant
            it.seq() == s@,
            v@ == it.seq().take(it.index() as int),
    {
        v.push(c);
    }
    v
}

/// `needle` stands in `hay` from position `i` on.
pub open spec fn occurs_at(hay: Seq<char>, needle: Seq<char>, i: int) -> bool {
    0 <= i && i + needle.len() <= hay.len() && hay.subrange(i, i + needle.len()) == needle
}

/// `needle` stands somewhere in `hay`, character for character.
pub open spec fn contains_text(hay: Seq<char>, needle: Seq<char>) -> bool {
    exists|i: int| occurs_at(hay, needle, i)
}

/// `s` ends with `suffix`.
pub open spec fn ends_with(s: Seq<char>, suffix: Seq<char>) -> bool {
    suffix.len() <= s.len() && s.subrange(s.len() - suffix.len(), s.len() as int) == suffix
}

/// `s` without `suffix` at its end, where it ends with it; else `s` itself.
pub open spec fn without_suffix(s: Seq<char>, suffix: Seq<char>) -> Seq<char> {
    if ends_with(s, suffix) {
        s.subrange(0, s.len() - suffix.len())
    } else {
        s
    }
}

fn matches_at(hay: &Vec<char>, needle: &Vec<char>, i: usize) -> (r: bool)
    requires
        i + needle.len() <= hay.len(),
    ensures
        r == occurs_at(hay@, needle@, i as int),
{
    let m = needle.len();
    let mut j: usize = 0;
    while j < m
        invariant
            m == needle.len(),
            i + m <= hay.len(),
            j <= m,
            forall|k: int| 0 <= k < j ==> hay@[i + k] == needle@[k],
        decreases m - j,
    {
        if hay[i + j] != needle[j] {
            assert(hay@.subrange(i as int, i + m)[j as int] != needle@[j as int]);
            return false;
        }
        j = j + 1;
    }
    assert(hay@.subrange(i as int, i + m) =~= needle@);
    true
}

/// Tells whether `needle` stands somewhere in `hay`. The comparison is exact:
/// no case folding, no normalisation.
pub fn contains(hay: &str, needle: &str) -> (r: bool)
    ensures
        r == contains_text(hay@, needle@),
{
    let h = chars_of(hay);
    let n = chars_of(needle);
    if n.len() > h.len() {
        return false;
    }
    let last = h.len() - n.len();
    let mut i: usize = 0;
    while i < last
        invariant
            h@ == hay@,
            n@ == needle@,
            last == h.len() - n.len(),
            n.len() <= h.len(),
            i <= last,
            forall|k: int| 0 <= k < i ==> !occurs_at(h@, n@, k),
        decreases last - i,
    {
        if matches_at(&h, &n, i) {
            return true;
        }
        i = i + 1;
    }
    matches_at(&h, &n, last)
}

/// Removes `suffix` from the end of `s` once, where `s` ends with it.
pub fn strip_suffix(s: &str, suffix: &str) -> (r: String)
    ensures
        r@ == without_suffix(s@, suffix@),
{
    let h = chars_of(s);
    let n = chars_of(suffix);
    if n.len() <= h.len() && matches_at(&h, &n, h.len() - n.len()) {
        String::from_str(s.substring_char(0, h.len() - n.len()))
    } else {
        String::from_str(s)
    }
}

/// White space, as Unicode defines it.
pub open spec fn is_white_space(c: char) -> bool {
    ||| '\u{9}' <= c <= '\u{d}'
    ||| c == ' '
    ||| c == '\u{85}'
    ||| c == '\u{a0}'
    ||| c == '\u{1680}'
    ||| '\u{2000}' <= c <= '\u{200a}'
    ||| c == '\u{2028}'
    ||| c == '\u{2029}'
    ||| c == '\u{202f}'
    ||| c == '\u{205f}'
    ||| c == '\u{3000}'
}

/// `s` without the white space at its two ends.
pub open spec fn trimmed(s: Seq<char>) -> Seq<char>
    decreases s.len(),
{
    if s.len() > 0 && is_white_space(s[0]) {
        trimmed(s.drop_first())
    } else if s.len() > 0 && is_white_space(s.last()) {
        trimmed(s.drop_last())
    } else {
        s
    }
}

/// Tells whether a character is white space.
pub fn white_space(c: char) -> (r: bool)
    ensures
        r == is_white_space(c),
{
    ('\u{9}' <= c && c <= '\u{d}') || c == ' ' || c == '\u{85}' || c == '\u{a0}' || c == '\u{1680}'
        || ('\u{2000}' <= c && c <= '\u{200a}') || c == '\u{2028}' || c == '\u{2029}' || c
        == '\u{202f}' || c == '\u{205f}' || c == '\u{3000}'
}

/// Trimming cuts a run of white space off each end and keeps what lies
/// between, where that neither starts nor ends with white space.
proof fn lemma_trimmed(s: Seq<char>, from: int, to: int)
    requires
        0 <= from <= to <= s.len(),
        forall|k: int| 0 <= k < from ==> is_white_space(s[k]),
        forall|k: int| to <= k < s.len() ==> is_white_space(s[k]),
        from < to ==> !is_white_space(s[from]) && !is_white_space(s[to - 1]),
    ensures
        trimmed(s) == s.subrange(from, to),
    decreases s.len(),
{
    if from > 0 {
        lemma_trimmed(s.drop_first(), from - 1, to - 1);
        assert(s.drop_first().subrange(from - 1, to - 1) == s.subrange(from, to));
    } else if to < s.len() {
        if from == to {
            // all of `s` is white space
            lemma_trimmed(s.drop_first(), 0, 0);
            assert(s.drop_first().subrange(0, 0) == s.subrange(from, to));
        } else {
            lemma_trimmed(s.drop_last(), from, to);
            assert(s.drop_last().subrange(from, to) == s.subrange(from, to));
        }
    } else {
        assert(s.subrange(0, s.len() as int) == s);
    }
}

/// Cuts the white space off both ends of a text.
pub fn trim(s: &str) -> (t: &str)
    ensures
        t@ == trimmed(s@),
{
    let chars = chars_of(s);
    let mut from: usize = 0;
    while from < chars.len() && white_space(chars[from])
        invariant
            from <= chars.len(),
            forall|k: int| 0 <= k < from ==> is_white_space(chars@[k]),
        decreases chars.len() - from,
    {
        from = from + 1;
    }
    let mut to: usize = chars.len();
    while to > from && white_space(chars[to - 1])
        invariant
            from <= to <= chars.len(),
            forall|k: int| to <= k < chars.len() ==> is_white_space(chars@[k]),
        decreases to,
    {
        to = to - 1;
    }
    proof {
        lemma_trimmed(s@, from as int, to as int);
    }
    s.substring_char(from, to)
}

/// The position of the last `c` in `s`, or -1 where `s` holds none.
pub open spec fn last_index_of(s: Seq<char>, c: char) -> int
    decreases s.len(),
{
    if s.len() == 0 {
        -1
    } else if s.last() == c {
        s.len() - 1
    } else {
        last_index_of(s.drop_last(), c)
    }
}

/// The file name in a path whose directories are separated by `/`: its last
/// component, where that is neither empty nor `.`; such components are passed
/// over from the end. A path that ends in `..`, or that has no component
/// left, has no file name.
pub open spec fn file_name_of(path: Seq<char>) -> Option<Seq<char>>
    decreases path.len(),
{
    if path.len() == 0 {
        None
    } else {
        let cut = last_index_of(path, '/');
        let last = path.subrange(cut + 1, path.len() as int);
        if last.len() == 0 || last == seq!['.'] {
            if 0 <= cut < path.len() {
                file_name_of(path.subrange(0, cut))
            } else {
                None
            }
        } else if last == seq!['.', '.'] {
            None
        } else {
            Some(last)
        }
    }
}

/// A file name without its extension: what stands before its last `.`, or all
/// of it where it holds no `.` but, perhaps, at its start.
pub open spec fn stem_of(file_name: Seq<char>) -> Seq<char> {
    let dot = last_index_of(file_name, '.');
    if dot <= 0 {
        file_name
    } else {
        file_name.subrange(0, dot)
    }
}

/// The stem of the file that a path names, if it names one.
pub open spec fn file_stem_of(path: Seq<char>) -> Option<Seq<char>> {
    match file_name_of(path) {
        Some(file_name) => Some(stem_of(file_name)),
        None => None,
    }
}

/// The stem of a file is never empty.
pub proof fn lemma_stem_is_not_empty(path: Seq<char>)
    ensures
        file_stem_of(path) matches Some(stem) ==> stem.len() > 0,
    decreases path.len(),
{
    if path.len() > 0 {
        let cut = last_index_of(path, '/');
        let last = path.subrange(cut + 1, path.len() as int);
        lemma_last_index_bounds(path, '/');
        if last.len() == 0 || last == seq!['.'] {
            if 0 <= cut < path.len() {
                lemma_stem_is_not_empty(path.subrange(0, cut));
            }
        } else {
            lemma_last_index_bounds(last, '.');
        }
    }
}

/// The last position of a character lies within the text, and holds it.
proof fn lemma_last_index_bounds(s: Seq<char>, c: char)
    ensures
        -1 <= last_index_of(s, c) < s.len(),
        last_index_of(s, c) >= 0 ==> s[last_index_of(s, c)] == c,
    decreases s.len(),
{
    if s.len() > 0 && s.last() != c {
        lemma_last_index_bounds(s.drop_last(), c);
    }
}

/// The path of `file` under the directory `dir`: the two joined by one `/`,
/// unless `dir` is empty or ends in one. A `file` that starts at the root
/// stays as it is.
pub open spec fn joined_path(dir: Seq<char>, file: Seq<char>) -> Seq<char> {
    if file.len() > 0 && file[0] == '/' {
        file
    } else if dir.len() == 0 || dir.last() == '/' {
        dir + file
    } else {
        dir + seq!['/'] + file
    }
}

proof fn lemma_last_index_of(s: Seq<char>, c: char, at: int)
    requires
        -1 <= at < s.len(),
        at >= 0 ==> s[at] == c,
        forall|k: int| at < k < s.len() ==> s[k] != c,
    ensures
        last_index_of(s, c) == at,
    decreases s.len(),
{
    if s.len() > 0 && at < s.len() - 1 {
        lemma_last_index_of(s.drop_last(), c, at);
    }
}

/// Finds the last `c` among the characters from `from` up to `to`.
fn last_position(chars: &Vec<char>, c: char, from: usize, to: usize) -> (at: Option<usize>)
    requires
        from <= to <= chars.len(),
    ensures
        (match at {
            Some(i) => from <= i < to && last_index_of(chars@.subrange(from as int, to as int), c)
                == i - from,
            None => last_index_of(chars@.subrange(from as int, to as int), c) == -1,
        }),
{
    let ghost part = chars@.subrange(from as int, to as int);
    let mut i: usize = to;
    while i > from
        invariant
            from <= i <= to <= chars.len(),
            part == chars@.subrange(from as int, to as int),
            forall|k: int| i - from <= k < part.len() ==> part[k] != c,
        decreases i,
    {
        if chars[i - 1] == c {
            proof {
                lemma_last_index_of(part, c, i - 1 - from);
            }
            return Some(i - 1);
        }
        i = i - 1;
    }
    proof {
        lemma_last_index_of(part, c, -1);
    }
    None
}

/// Finds where the file name stands in a path.
fn file_name_span(chars: &Vec<char>) -> (span: Option<(usize, usize)>)
    ensures
        (match span {
            Some((from, to)) => from < to <= chars.len() && file_name_of(chars@) == Some(
                chars@.subrange(from as int, to as int),
            ),
            None => file_name_of(chars@) is None,
        }),
{
    let mut end: usize = chars.len();
    assert(chars@.subrange(0, end as int) == chars@);
    while end > 0
        invariant
            end <= chars.len(),
            file_name_of(chars@) == file_name_of(chars@.subrange(0, end as int)),
        decreases end,
    {
        let ghost path = chars@.subrange(0, end as int);
        let cut = last_position(chars, '/', 0, end);
        let from: usize = match cut {
            Some(i) => i + 1,
            None => 0,
        };
        let ghost last = path.subrange(from as int, end as int);
        assert(last == chars@.subrange(from as int, end as int));
        assert(last_index_of(path, '/') == from - 1);
        let len = end - from;
        if len == 0 || (len == 1 && chars[from] == '.') {
            assert(last.len() == 0 || last == seq!['.']) by {
                if len == 1 {
                    assert(last =~= seq!['.']);
                }
            }
            if from == 0 {
                return None;
            }
            assert(path.subrange(0, from - 1) == chars@.subrange(0, from - 1));
            end = from - 1;
        } else if len == 2 && chars[from] == '.' && chars[from + 1] == '.' {
            assert(last =~= seq!['.', '.']);
            assert(last != seq!['.']);
            return None;
        } else {
            assert(last != seq!['.']) by {
                if last == seq!['.'] {
                    assert(last.len() == 1 && last[0] == '.');
                }
            }
            assert(last != seq!['.', '.']) by {
                if last == seq!['.', '.'] {
                    assert(last.len() == 2 && last[0] == '.' && last[1] == '.');
                }
            }
            return Some((from, end));
        }
    }
    None
}

/// The stem of the file that a path names: its last component without the
/// extension. Directories are separated by `/`.
pub fn file_stem(name: &str) -> (stem: Option<String>)
    ensures
        stem.deep_view() == file_stem_of(name@),
{
    let chars = chars_of(name);
    match file_name_span(&chars) {
        Some((from, to)) => {
            let end = match last_position(&chars, '.', from, to) {
                Some(dot) => if dot > from {
                    dot
                } else {
                    to
                },
                None => to,
            };
            assert(name@.subrange(from as int, end as int) == stem_of(
                name@.subrange(from as int, to as int),
            )) by {
                let file_name = name@.subrange(from as int, to as int);
                if end < to {
                    assert(file_name.subrange(0, end - from) == name@.subrange(
                        from as int,
                        end as int,
                    ));
                }
            }
            Some(String::from_str(name.substring_char(from, end)))
        },
        None => None,
    }
}

/// Puts a file name under a directory.
pub fn join_path(dir: &str, file: &str) -> (path: String)
    ensures
        path@ == joined_path(dir@, file@),
{
    let d = chars_of(dir);
    let f = chars_of(file);
    proof {
        reveal_strlit("/");
    }
    if f.len() > 0 && f[0] == '/' {
        String::from_str(file)
    } else if d.len() == 0 || d[d.len() - 1] == '/' {
        String::from_str(dir).concat(file)
    } else {
        let path = String::from_str(dir).concat("/").concat(file);
        assert(path@ =~= dir@ + seq!['/'] + file@);
        path
    }
}

} // verus!
