use vstd::prelude::*;

verus! {

/// Whether `q` occurs as a contiguous run inside `l`.
pub open spec fn occurs_in(q: Seq<char>, l: Seq<char>) -> bool {
    exists|i: int| 0 <= i <= l.len() - q.len() && #[trigger] l.subrange(i, i + q.len()) == q
}

/// A line without the carriage return that ended it, if any.
pub open spec fn strip_cr(l: Seq<char>) -> Seq<char> {
    if l.len() > 0 && l.last() == '\r' {
        l.drop_last()
    } else {
        l
    }
}

/// The lines of `s`, given that `cur` holds the unfinished line read so far.
pub open spec fn lines_after(s: Seq<char>, cur: Seq<char>) -> Seq<Seq<char>>
    decreases s.len(),
{
    if s.len() == 0 {
        if cur.len() == 0 {
            Seq::empty()
        } else {
            seq![cur]
        }
    } else if s[0] == '\n' {
        seq![strip_cr(cur)] + lines_after(s.drop_first(), Seq::empty())
    } else {
        lines_after(s.drop_first(), cur.push(s[0]))
    }
}

/// The lines of `s`: split at each `\n`, a `\r` just before it dropped, and
/// no empty line after a final `\n`.
pub open spec fn lines_of(s: Seq<char>) -> Seq<Seq<char>> {
    lines_after(s, Seq::empty())
}


/// Of `lines`, those whose key (the entry of `keys` at the same place)
/// holds `q`, in their order.
pub open spec fn select(q: Seq<char>, keys: Seq<Seq<char>>, lines: Seq<Seq<char>>) -> Seq<Seq<char>>
    decreases lines.len(),
{
    if lines.len() == 0 {
        Seq::empty()
    } else {
        let k = lines.len() - 1;
        select(q, keys.take(k), lines.take(k)) + if occurs_in(q, keys[k]) {
            seq![lines[k]]
        } else {
            Seq::empty()
        }
    }
}

/// What `str::to_lowercase` makes of a text.
pub uninterp spec fn lower_of(s: Seq<char>) -> Seq<char>;

/// Relies on `str::chars`: the characters of `s`, in order.
#[verifier::external_body]
fn chars_of(s: &str) -> (r: Vec<char>)
    ensures
        r@ == s@,
{
    s.chars().collect()
}

/// Relies on `String: FromIterator<&char>`: the text made of `c`, in order.
#[verifier::external_body]
fn string_of(c: &[char]) -> (r: String)
    ensures
        r@ == c@,
{
    c.iter().collect()
}

/// Relies on `str::to_lowercase`: the result depends on the characters alone.
#[verifier::external_body]
fn lowercase(s: &str) -> (r: String)
    ensures
        r@ == lower_of(s@),
{
    s.to_lowercase()
}

/// Whether `q` occurs as a contiguous run inside `l`.
pub fn occurs(q: &Vec<char>, l: &Vec<char>) -> (r: bool)
    ensures
        r == occurs_in(q@, l@),
{
    if q.len() > l.len() {
        return false;
    }
    let last: usize = l.len() - q.len();
    let mut i: usize = 0;
    loop
        invariant
            last == l@.len() - q@.len(),
            i <= last,
            q@.len() <= l@.len() <= usize::MAX,
            forall|k: int| 0 <= k < i ==> #[trigger] l@.subrange(k, k + q@.len()) != q@,
        decreases last - i,
    {
        let mut j: usize = 0;
        let mut same = true;
        while j < q.len()
            invariant
                i <= last,
                last == l@.len() - q@.len(),
                j <= q@.len(),
                q@.len() <= l@.len() <= usize::MAX,
                same == (forall|m: int| 0 <= m < j ==> l@[i + m] == q@[m]),
            decreases q@.len() - j,
        {
            if l[i + j] != q[j] {
                same = false;
            }
            j = j + 1;
        }
        if same {
            assert(l@.subrange(i as int, i + q@.len()) =~= q@);
            return true;
        }
        assert(l@.subrange(i as int, i + q@.len()) != q@) by {
            let m = choose|m: int| 0 <= m < q@.len() && l@[i + m] != q@[m];
            assert(l@.subrange(i as int, i + q@.len())[m] == l@[i + m]);
        }
        if i == last {
            return false;
        }
        i = i + 1;
    }
}

/// The texts held by a sequence of character vectors.
pub open spec fn char_views(v: Seq<Vec<char>>) -> Seq<Seq<char>> {
    v.map_values(|x: Vec<char>| x@)
}

/// The texts held by a sequence of strings.
pub open spec fn string_views(v: Seq<String>) -> Seq<Seq<char>> {
    v.map_values(|x: String| x@)
}

/// The lines of `contents`, each as its characters.
pub fn split_lines(contents: &str) -> (r: Vec<Vec<char>>)
    ensures
        char_views(r@) == lines_of(contents@),
{
    let s = chars_of(contents);
    let mut out: Vec<Vec<char>> = Vec::new();
    let mut cur: Vec<char> = Vec::new();
    let mut i: usize = 0;
    assert(s@.skip(0) =~= s@);
    assert(char_views(out@) + lines_after(s@, cur@) =~= lines_after(s@, Seq::empty()));
    while i < s.len()
        invariant
            s@ == contents@,
            i <= s@.len(),
            lines_of(s@) == char_views(out@) + lines_after(s@.skip(i as int), cur@),
        decreases s@.len() - i,
    {
        let c = s[i];
        let ghost rest = s@.skip(i as int);
        assert(rest[0] == c);
        assert(rest.drop_first() =~= s@.skip(i + 1));
        if c == '\n' {
            let ghost before = out@;
            let ghost line = cur@;
            if cur.len() > 0 && cur[cur.len() - 1] == '\r' {
                cur.pop();
            }
            assert(cur@ =~= strip_cr(line));
            out.push(cur);
            cur = Vec::new();
            assert(char_views(out@) =~= char_views(before) + seq![strip_cr(line)]);
            assert(lines_after(rest, line) == seq![strip_cr(line)] + lines_after(s@.skip(i + 1), cur@));
            assert(char_views(before) + lines_after(rest, line) =~= char_views(out@) + lines_after(
                s@.skip(i + 1),
                cur@,
            ));
        } else {
            let ghost line = cur@;
            cur.push(c);
            assert(lines_after(rest, line) == lines_after(s@.skip(i + 1), cur@));
        }
        i = i + 1;
    }
    assert(s@.skip(i as int) =~= Seq::<char>::empty());
    if cur.len() > 0 {
        let ghost before = out@;
        out.push(cur);
        assert(char_views(out@) =~= char_views(before) + seq![out@.last()@]);
    } else {
        assert(char_views(out@) + Seq::<Seq<char>>::empty() =~= char_views(out@));
    }
    out
}

/// The entries of `lines` whose key (the entry of `keys` at the same place)
/// holds `query`, in their order, as strings.
pub fn select_lines(query: &Vec<char>, keys: &Vec<Vec<char>>, lines: &Vec<Vec<char>>) -> (r: Vec<
    String,
>)
    requires
        keys@.len() == lines@.len(),
    ensures
        string_views(r@) == select(query@, char_views(keys@), char_views(lines@)),
{
    let mut out: Vec<String> = Vec::new();
    let mut i: usize = 0;
    while i < lines.len()
        invariant
            keys@.len() == lines@.len(),
            i <= lines@.len(),
            string_views(out@) == select(
                query@,
                char_views(keys@).take(i as int),
                char_views(lines@).take(i as int),
            ),
        decreases lines@.len() - i,
    {
        let ghost before = out@;
        let hit = occurs(query, &keys[i]);
        if hit {
            let line = string_of(lines[i].as_slice());
            out.push(line);
        }
        let ghost ks = char_views(keys@).take(i + 1);
        let ghost ls = char_views(lines@).take(i + 1);
        assert(ks.take(i as int) =~= char_views(keys@).take(i as int));
        assert(ls.take(i as int) =~= char_views(lines@).take(i as int));
        assert(ks[i as int] == keys@[i as int]@);
        assert(ls[i as int] == lines@[i as int]@);
        if hit {
            assert(string_views(out@) =~= string_views(before) + seq![ls[i as int]]);
        } else {
            assert(string_views(out@) =~= string_views(before) + Seq::<Seq<char>>::empty());
        }
        i = i + 1;
    }
    assert(char_views(keys@).take(i as int) =~= char_views(keys@));
    assert(char_views(lines@).take(i as int) =~= char_views(lines@));
    out
}

/// The lines of `contents` that hold `query`, in their order.
pub fn search(query: &str, contents: &str) -> (r: Vec<String>)
    ensures
        string_views(r@) == select(query@, lines_of(contents@), lines_of(contents@)),
{
    let q = chars_of(query);
    let lines = split_lines(contents);
    select_lines(&q, &lines, &lines)
}

/// The lines of `contents` that hold `query` once both are lower-cased, in
/// their order.
pub fn search_case_insensitive(query: &str, contents: &str) -> (r: Vec<String>)
    ensures
        string_views(r@) == select(
            lower_of(query@),
            lines_of(contents@).map_values(|l: Seq<char>| lower_of(l)),
            lines_of(contents@),
        ),
{
    let lowered = lowercase(query);
    let q = chars_of(lowered.as_str());
    let lines = split_lines(contents);
    let mut keys: Vec<Vec<char>> = Vec::new();
    let mut i: usize = 0;
    while i < lines.len()
        invariant
            i <= lines@.len(),
            keys@.len() == i,
            forall|k: int|
                0 <= k < i ==> #[trigger] keys@[k]@ == lower_of(lines@[k]@),
        decreases lines@.len() - i,
    {
        let text = string_of(lines[i].as_slice());
        let folded = lowercase(text.as_str());
        keys.push(chars_of(folded.as_str()));
        i = i + 1;
    }
    assert(char_views(keys@) =~= char_views(lines@).map_values(|l: Seq<char>| lower_of(l)));
    select_lines(&q, &keys, &lines)
}

} // verus!
