use vstd::prelude::*;

use crate::text::chars_of;

verus! {

/// The pieces of `s` between the separators `sep`: one more piece than there
/// are separators, empty ones included.
pub open spec fn split_on(s: Seq<char>, sep: char) -> Seq<Seq<char>>
    decreases s.len(),
{
    if s.len() == 0 {
        seq![seq![]]
    } else {
        let w = split_on(s.drop_last(), sep);
        if s.last() == sep {
            w.push(seq![])
        } else {
            w.drop_last().push(w.last().push(s.last()))
        }
    }
}

/// The end of the first three `|`-separated fields of `l`, searching from `i`
/// with `seen` bars already passed.
pub open spec fn fields_end(l: Seq<char>, i: int, seen: nat) -> int
    decreases l.len() - i,
{
    if i < 0 || i >= l.len() {
        l.len() as int
    } else if l[i] == '|' && seen >= 2 {
        i
    } else if l[i] == '|' {
        fields_end(l, i + 1, seen + 1)
    } else {
        fields_end(l, i + 1, seen)
    }
}

/// A line of the game list cut to its first three fields (id, slug and name).
pub open spec fn choice_of(l: Seq<char>) -> Seq<char> {
    l.take(fields_end(l, 0, 0))
}

/// Lexicographic order of characters, the order of `String`'s `Ord`.
pub open spec fn text_le(a: Seq<char>, b: Seq<char>) -> bool
    decreases a.len(),
{
    if a.len() == 0 {
        true
    } else if b.len() == 0 {
        false
    } else if a[0] != b[0] {
        (a[0] as u32) < (b[0] as u32)
    } else {
        text_le(a.skip(1), b.skip(1))
    }
}

pub open spec fn texts(v: Seq<String>) -> Seq<Seq<char>> {
    v.map_values(|t: String| t@)
}

pub open spec fn sorted_texts(v: Seq<Seq<char>>) -> bool {
    forall|i: int, j: int| 0 <= i < j < v.len() ==> text_le(#[trigger] v[i], #[trigger] v[j])
}

/// The game list cut to the first three fields of each line, in no order yet.
pub open spec fn unsorted_choices(list: Seq<char>) -> Seq<Seq<char>> {
    split_on(list, '\n').map_values(|l: Seq<char>| choice_of(l))
}

/// Relies on `slice::sort`: the result holds the same strings, in
/// lexicographic order.
#[verifier::external_body]
fn sort_strings(v: Vec<String>) -> (r: Vec<String>)
    ensures
        texts(r@).to_multiset() == texts(v@).to_multiset(),
        sorted_texts(texts(r@)),
{
    let mut r = v;
    r.sort();
    r
}

/// Where the first three fields of the line `s[a..b]` end.
fn fields_end_at(s: &Vec<char>, a: usize, b: usize) -> (e: usize)
    requires
        a <= b <= s@.len(),
    ensures
        a <= e <= b,
        s@.subrange(a as int, e as int) == choice_of(s@.subrange(a as int, b as int)),
{
    let ghost l = s@.subrange(a as int, b as int);
    let mut j: usize = a;
    let mut seen: u8 = 0;
    while j < b && !(s[j] == '|' && seen >= 2)
        invariant
            a <= j <= b <= s@.len(),
            l == s@.subrange(a as int, b as int),
            seen <= 2,
            fields_end(l, 0, 0) == fields_end(l, j - a, seen as nat),
        decreases b - j,
    {
        assert(l[j - a] == s@[j as int]);
        if s[j] == '|' {
            seen += 1;
        }
        j += 1;
    }
    assert(j < b ==> l[j - a] == s@[j as int]);
    assert(fields_end(l, j - a, seen as nat) == j - a);
    assert(l.take(j - a) =~= s@.subrange(a as int, j as int));
    j
}

/// The games of a game list, one per line as `id|slug|name|...`, cut to their
/// first three fields and sorted.
pub fn game_choices(list_output: &str) -> (r: Vec<String>)
    ensures
        texts(r@).to_multiset() == unsorted_choices(list_output@).to_multiset(),
        sorted_texts(texts(r@)),
{
    let s = chars_of(list_output);
    let n = s.len();
    let mut out: Vec<String> = Vec::new();
    let mut start: usize = 0;
    let mut i: usize = 0;
    let ghost mut done: Seq<Seq<char>> = seq![];
    assert(s@.take(0) =~= Seq::<char>::empty());
    assert(s@.subrange(0, 0) =~= Seq::<char>::empty());
    assert(split_on(s@.take(0), '\n') =~= done.push(s@.subrange(0, 0)));
    assert(texts(out@) =~= done.map_values(|l: Seq<char>| choice_of(l)));
    while i < n
        invariant
            n == s@.len(),
            s@ == list_output@,
            start <= i <= n,
            split_on(s@.take(i as int), '\n') == done.push(s@.subrange(start as int, i as int)),
            texts(out@) == done.map_values(|l: Seq<char>| choice_of(l)),
        decreases n - i,
    {
        let ghost next = s@.take(i + 1);
        assert(next.drop_last() =~= s@.take(i as int));
        if s[i] == '\n' {
            let e = fields_end_at(&s, start, i);
            let piece = String::from_str(list_output.substring_char(start, e));
            let ghost before = out@;
            out.push(piece);
            proof {
                let cur = s@.subrange(start as int, i as int);
                assert(texts(out@) =~= texts(before).push(choice_of(cur)));
                done = done.push(cur);
                assert(texts(out@) =~= done.map_values(|l: Seq<char>| choice_of(l)));
                assert(s@.subrange(i + 1, i + 1) =~= Seq::<char>::empty());
            }
            start = i + 1;
        } else {
            assert(s@.subrange(start as int, i + 1) =~= s@.subrange(start as int, i as int).push(
                s@[i as int],
            ));
        }
        i += 1;
    }
    let e = fields_end_at(&s, start, n);
    let piece = String::from_str(list_output.substring_char(start, e));
    let ghost before = out@;
    out.push(piece);
    proof {
        let cur = s@.subrange(start as int, n as int);
        assert(texts(out@) =~= texts(before).push(choice_of(cur)));
        done = done.push(cur);
        assert(s@.take(n as int) =~= s@);
        assert(texts(out@) =~= unsorted_choices(list_output@));
    }
    sort_strings(out)
}

/// `p` occurs in `t` as a run of consecutive characters.
pub open spec fn contains_text(t: Seq<char>, p: Seq<char>) -> bool {
    exists|i: int| 0 <= i <= t.len() - p.len() && #[trigger] t.subrange(i, i + p.len()) == p
}

/// The texts of `v` in which `p` occurs, in their order.
pub open spec fn matching(v: Seq<Seq<char>>, p: Seq<char>) -> Seq<Seq<char>>
    decreases v.len(),
{
    if v.len() == 0 {
        seq![]
    } else if contains_text(v.last(), p) {
        matching(v.drop_last(), p).push(v.last())
    } else {
        matching(v.drop_last(), p)
    }
}

/// Whether `p` occurs in `t` starting at position `i`.
fn occurs_at(t: &Vec<char>, p: &Vec<char>, i: usize) -> (r: bool)
    requires
        i + p@.len() <= t@.len(),
    ensures
        r == (t@.subrange(i as int, i + p@.len()) == p@),
{
    let tlen = t.len();
    let mut j: usize = 0;
    while j < p.len()
        invariant
            i + p@.len() <= t@.len(),
            tlen == t@.len(),
            j <= p@.len(),
            forall|k: int| 0 <= k < j ==> t@[i + k] == p@[k],
        decreases p@.len() - j,
    {
        if t[i + j] != p[j] {
            assert(t@.subrange(i as int, i + p@.len())[j as int] != p@[j as int]);
            return false;
        }
        j += 1;
    }
    assert(t@.subrange(i as int, i + p@.len()) =~= p@);
    true
}

/// Whether `pattern` occurs in `text`.
pub fn text_contains(text: &str, pattern: &str) -> (r: bool)
    ensures
        r == contains_text(text@, pattern@),
{
    let t = chars_of(text);
    let p = chars_of(pattern);
    if p.len() > t.len() {
        return false;
    }
    let last = t.len() - p.len();
    let mut i: usize = 0;
    loop
        invariant
            i <= last,
            last == t@.len() - p@.len(),
            t@ == text@,
            p@ == pattern@,
            forall|k: int| 0 <= k < i ==> #[trigger] t@.subrange(k, k + p@.len()) != p@,
        decreases last - i,
    {
        if occurs_at(&t, &p, i) {
            return true;
        }
        if i == last {
            assert forall|k: int| 0 <= k <= last implies #[trigger] t@.subrange(k, k + p@.len())
                != p@ by {
                if k == last {
                    assert(t@.subrange(k, k + p@.len()) != p@);
                }
            }
            return false;
        }
        i += 1;
    }
}

/// The choices in which `search` occurs, in their order.
pub fn filter_choices(choices: &Vec<String>, search: &str) -> (r: Vec<String>)
    ensures
        texts(r@) == matching(texts(choices@), search@),
{
    let mut r: Vec<String> = Vec::new();
    let mut i: usize = 0;
    while i < choices.len()
        invariant
            i <= choices@.len(),
            texts(r@) == matching(texts(choices@.take(i as int)), search@),
        decreases choices@.len() - i,
    {
        let ghost pre = texts(choices@.take(i as int));
        assert(texts(choices@.take(i + 1)).drop_last() =~= pre);
        assert(texts(choices@.take(i + 1)).last() == choices@[i as int]@);
        if text_contains(choices[i].as_str(), search) {
            let ghost before = r@;
            r.push(choices[i].clone());
            assert(texts(r@) =~= texts(before).push(choices@[i as int]@));
        }
        i += 1;
    }
    assert(choices@.take(choices@.len() as int) =~= choices@);
    r
}

/// What to do with the game list: launch the one game that matches, or let the
/// user choose from a menu.
pub enum GamePick {
    Launch(String),
    Menu { prompt: String, options: Vec<String> },
}

/// The menu prompt when nothing matches `search`.
pub open spec fn no_match_prompt(search: Seq<char>) -> Seq<char> {
    "Choose game (no matches found for '"@ + search + "')"@
}

/// The choices that the search keeps; all of them without a search.
pub open spec fn kept_choices(choices: Seq<String>, search: Option<String>) -> Seq<Seq<char>> {
    match search {
        Some(q) => matching(texts(choices), q@),
        None => texts(choices),
    }
}

/// The search text, empty without a search.
pub open spec fn search_text(search: Option<String>) -> Seq<char> {
    match search {
        Some(q) => q@,
        None => seq![],
    }
}

/// Launches the game directly when exactly one choice matches `search`; offers
/// every choice when none does, and the matching ones when several do.
pub fn pick_game(choices: Vec<String>, search: Option<String>) -> (r: GamePick)
    ensures
        ({
            let kept = kept_choices(choices@, search);
            if kept.len() == 1 {
                r matches GamePick::Launch(g) && g@ == kept[0]
            } else if kept.len() == 0 {
                r matches GamePick::Menu { prompt, options } && prompt@ == no_match_prompt(
                    search_text(search),
                ) && texts(options@) == texts(choices@)
            } else {
                r matches GamePick::Menu { prompt, options } && prompt@ == "Choose game"@ && texts(
                    options@,
                ) == kept
            }
        }),
{
    let mut prompt = String::from_str("Choose game (no matches found for '");
    let filtered = match &search {
        Some(q) => {
            prompt.append(q.as_str());
            filter_choices(&choices, q.as_str())
        },
        None => {
            proof {
                reveal_strlit("");
            }
            prompt.append("");
            let mut all: Vec<String> = Vec::new();
            let mut i: usize = 0;
            while i < choices.len()
                invariant
                    i <= choices@.len(),
                    texts(all@) == texts(choices@.take(i as int)),
                decreases choices@.len() - i,
            {
                let ghost before = all@;
                all.push(choices[i].clone());
                assert(texts(all@) =~= texts(before).push(choices@[i as int]@));
                assert(texts(choices@.take(i + 1)) =~= texts(choices@.take(i as int)).push(
                    choices@[i as int]@,
                ));
                i += 1;
            }
            assert(choices@.take(choices@.len() as int) =~= choices@);
            all
        },
    };
    prompt.append("')");
    assert(prompt@ == no_match_prompt(search_text(search))) by {
        if search is None {
            assert(""@ =~= Seq::<char>::empty());
        }
    }
    if filtered.len() == 1 {
        GamePick::Launch(filtered[0].clone())
    } else if filtered.len() == 0 {
        GamePick::Menu { prompt, options: choices }
    } else {
        GamePick::Menu { prompt: String::from_str("Choose game"), options: filtered }
    }
}

/// Whether `char::is_whitespace` holds of `c` (Unicode's `White_Space`).
pub uninterp spec fn white_space(c: char) -> bool;

/// Relies on `char::is_whitespace`: it depends on the character alone, and
/// holds of the space.
#[verifier::external_body]
fn is_white_space(c: char) -> (r: bool)
    ensures
        r == white_space(c),
        c == ' ' ==> r,
{
    c.is_whitespace()
}

/// `s` without white space at its start.
pub open spec fn trim_front(s: Seq<char>) -> Seq<char>
    decreases s.len(),
{
    if s.len() > 0 && white_space(s[0]) {
        trim_front(s.skip(1))
    } else {
        s
    }
}

/// `s` without white space at its end.
pub open spec fn trim_back(s: Seq<char>) -> Seq<char>
    decreases s.len(),
{
    if s.len() > 0 && white_space(s.last()) {
        trim_back(s.drop_last())
    } else {
        s
    }
}

/// The text before the first `|` of `s`, or all of `s`.
pub open spec fn first_field(s: Seq<char>) -> Seq<char> {
    split_on(s, '|')[0]
}

/// The id of a chosen game: the first field of the choice, without the white
/// space around it.
pub fn game_id(selection: &str) -> (r: String)
    ensures
        r@ == trim_back(trim_front(first_field(selection@))),
{
    let s = chars_of(selection);
    let mut e: usize = 0;
    while e < s.len() && s[e] != '|'
        invariant
            e <= s@.len(),
            forall|k: int| 0 <= k < e ==> s@[k] != '|',
        decreases s@.len() - e,
    {
        e += 1;
    }
    proof {
        lemma_first_field(s@, e as int);
    }
    let ghost f = s@.take(e as int);
    let mut a: usize = 0;
    while a < e && is_white_space(s[a])
        invariant
            a <= e <= s@.len(),
            f == s@.take(e as int),
            trim_front(f) == trim_front(s@.subrange(a as int, e as int)),
        decreases e - a,
    {
        assert(s@.subrange(a as int, e as int).skip(1) =~= s@.subrange(a + 1, e as int));
        a += 1;
    }
    assert(s@.take(e as int) =~= s@.subrange(0, e as int));
    let mut b: usize = e;
    while b > a && is_white_space(s[b - 1])
        invariant
            a <= b <= e <= s@.len(),
            trim_back(trim_front(f)) == trim_back(s@.subrange(a as int, b as int)),
        decreases b - a,
    {
        assert(s@.subrange(a as int, b as int).drop_last() =~= s@.subrange(a as int, b - 1));
        b -= 1;
    }
    String::from_str(selection.substring_char(a, b))
}

/// The first field of `s` ends at the first `|`, at `e`.
proof fn lemma_first_field(s: Seq<char>, e: int)
    requires
        0 <= e <= s.len(),
        forall|k: int| 0 <= k < e ==> s[k] != '|',
        e == s.len() || s[e] == '|',
    ensures
        first_field(s) == s.take(e),
        split_on(s, '|').len() >= 1,
        (split_on(s, '|').len() == 1) == (e == s.len()),
    decreases s.len(),
{
    if s.len() > 0 {
        let w = split_on(s.drop_last(), '|');
        if e == s.len() {
            lemma_first_field(s.drop_last(), e - 1);
            assert(s.drop_last().take(e - 1).push(s.last()) =~= s.take(e));
        } else if e == s.len() - 1 {
            lemma_first_field(s.drop_last(), e);
            assert(s.drop_last().take(e) =~= s.drop_last());
            assert(s.drop_last().take(e) =~= s.take(e));
        } else {
            lemma_first_field(s.drop_last(), e);
            assert(s.drop_last().take(e) =~= s.take(e));
        }
    } else {
        assert(s.take(e) =~= Seq::<char>::empty());
    }
}

} // verus!
