//! Pieces of the browser-facing pages that are plain computation: the point
//! history carried in query strings, grid sizes, icons and redirects.

use vstd::prelude::*;
use vstd::string::*;

verus! {

/// How many points a graph's history keeps.
pub const HISTORY_LEN: usize = 20;

/// The pieces of `s` between occurrences of `sep`, in order; there is always at
/// least one piece, and an empty string is one empty piece.
pub open spec fn split_on(s: Seq<char>, sep: char) -> Seq<Seq<char>>
    decreases s.len(),
{
    if s.len() == 0 {
        seq![Seq::<char>::empty()]
    } else {
        let p = split_on(s.drop_last(), sep);
        if s.last() == sep {
            p.push(Seq::<char>::empty())
        } else {
            p.update(p.len() - 1, p.last().push(s.last()))
        }
    }
}

/// Each item followed by a comma.
pub open spec fn joined(items: Seq<Seq<char>>) -> Seq<char>
    decreases items.len(),
{
    if items.len() == 0 {
        Seq::<char>::empty()
    } else {
        joined(items.drop_last()) + items.last() + seq![',']
    }
}

/// The text of each string.
pub open spec fn texts(items: Seq<String>) -> Seq<Seq<char>> {
    items.map_values(|x: String| x@)
}

/// Splitting always yields at least one piece.
pub proof fn lemma_split_nonempty(s: Seq<char>, sep: char)
    ensures
        split_on(s, sep).len() >= 1,
    decreases s.len(),
{
    if s.len() > 0 {
        lemma_split_nonempty(s.drop_last(), sep);
    }
}

/// Appending text without separators extends the last piece.
proof fn lemma_split_extend(s: Seq<char>, piece: Seq<char>, sep: char)
    requires
        !piece.contains(sep),
    ensures
        ({
            let p = split_on(s, sep);
            split_on(s + piece, sep) == p.update(p.len() - 1, p.last() + piece)
        }),
    decreases piece.len(),
{
    lemma_split_nonempty(s, sep);
    let p = split_on(s, sep);
    if piece.len() == 0 {
        assert(s + piece == s);
        assert(p.last() + piece == p.last());
        assert(p.update(p.len() - 1, p.last()) == p);
    } else {
        let front = piece.drop_last();
        assert(!front.contains(sep)) by {
            if front.contains(sep) {
                let i = choose|i: int| 0 <= i < front.len() && front[i] == sep;
                assert(piece[i] == sep);
            }
        }
        lemma_split_extend(s, front, sep);
        assert((s + piece).drop_last() == s + front);
        assert((s + piece).last() == piece.last());
        assert(piece.last() != sep) by {
            assert(piece[piece.len() - 1] == piece.last());
        }
        lemma_split_nonempty(s + front, sep);
        assert((p.last() + front).push(piece.last()) == p.last() + piece);
        assert(p.update(p.len() - 1, p.last() + front).update(p.len() - 1, p.last() + piece)
            == p.update(p.len() - 1, p.last() + piece));
    }
}

/// Splitting joined items on commas gives the items back, followed by the
/// empty piece after the last comma, provided no item holds a comma.
pub proof fn lemma_split_joined(items: Seq<Seq<char>>)
    requires
        forall|i: int| 0 <= i < items.len() ==> !(#[trigger] items[i]).contains(','),
    ensures
        split_on(joined(items), ',') == items.push(Seq::<char>::empty()),
    decreases items.len(),
{
    if items.len() == 0 {
        assert(split_on(Seq::<char>::empty(), ',') == seq![Seq::<char>::empty()]);
        assert(items.push(Seq::<char>::empty()) == seq![Seq::<char>::empty()]);
    } else {
        let prev = items.drop_last();
        assert forall|i: int| 0 <= i < prev.len() implies !(#[trigger] prev[i]).contains(',') by {
            assert(prev[i] == items[i]);
        }
        lemma_split_joined(prev);
        let item = items.last();
        assert(!item.contains(',')) by {
            assert(items[items.len() - 1] == item);
        }
        let base = joined(prev);
        lemma_split_extend(base, item, ',');
        let p = split_on(base, ',');
        assert(p == prev.push(Seq::<char>::empty()));
        let s = base + item + seq![','];
        assert(s.drop_last() == base + item);
        assert(s.last() == ',');
        assert(p.last() + item == item);
        assert(p.update(p.len() - 1, item) == items);
    }
}

/// A list of values carried in one query parameter, each followed by a comma.
#[derive(Debug, Clone, Default)]
pub struct QueryArray(String);

impl QueryArray {
    /// The parameter's text.
    pub closed spec fn text(&self) -> Seq<char> {
        self.0@
    }

    /// The parameter's text.
    pub fn as_str(&self) -> (r: &str)
        ensures
            r@ == self.text(),
    {
        self.0.as_str()
    }

    /// A parameter holding the given text as it stands.
    pub fn from_text(text: String) -> (r: QueryArray)
        ensures
            r.text() == text@,
    {
        QueryArray(text)
    }

    /// Writes each value's text followed by a comma.
    pub fn from_iter(items: &Vec<String>) -> (r: QueryArray)
        ensures
            r.text() == joined(texts(items@)),
    {
        let mut acc = String::new();
        let mut i: usize = 0;
        assert(texts(items@.subrange(0, 0)) =~= Seq::<Seq<char>>::empty());
        while i < items.len()
            invariant
                i <= items@.len(),
                acc@ == joined(texts(items@.subrange(0, i as int))),
            decreases items@.len() - i,
        {
            let ghost prefix = items@.subrange(0, i as int);
            let ghost next = items@.subrange(0, i + 1);
            assert(texts(next).drop_last() =~= texts(prefix));
            assert(texts(next).last() == items@[i as int]@);
            proof {
                reveal_strlit(",");
            }
            acc.append(items[i].as_str());
            acc.append(",");
            assert(acc@ == joined(texts(next)));
            i = i + 1;
        }
        assert(items@.subrange(0, items@.len() as int) == items@);
        QueryArray(acc)
    }

    /// The comma-separated pieces of the parameter, empty ones included.
    pub fn to_iter(&self) -> (r: Vec<String>)
        ensures
            texts(r@) == split_on(self.text(), ','),
    {
        let s = self.0.as_str();
        let n = s.unicode_len();
        let mut pieces: Vec<String> = Vec::new();
        let mut start: usize = 0;
        let mut i: usize = 0;
        assert(s@.subrange(0, 0) =~= Seq::<char>::empty());
        assert(texts(pieces@) =~= Seq::<Seq<char>>::empty());
        assert(texts(pieces@).push(s@.subrange(0, 0)) =~= split_on(s@.subrange(0, 0), ','));
        while i < n
            invariant
                n == s@.len(),
                s@ == self.text(),
                start <= i <= n,
                texts(pieces@).push(s@.subrange(start as int, i as int)) == split_on(
                    s@.subrange(0, i as int),
                    ',',
                ),
            decreases n - i,
        {
            let ghost before = texts(pieces@);
            let c = s.get_char(i);
            let ghost next = s@.subrange(0, i + 1);
            assert(next.drop_last() == s@.subrange(0, i as int));
            assert(next.last() == c);
            proof {
                lemma_split_nonempty(s@.subrange(0, i as int), ',');
            }
            let ghost p = split_on(s@.subrange(0, i as int), ',');
            if c == ',' {
                let piece = String::from_str(s.substring_char(start, i));
                pieces.push(piece);
                assert(texts(pieces@) =~= before.push(s@.subrange(start as int, i as int)));
                start = i + 1;
                assert(s@.subrange(start as int, i + 1) =~= Seq::<char>::empty());
                assert(texts(pieces@).push(s@.subrange(start as int, i + 1)) =~= p.push(Seq::<char>::empty()));
            } else {
                assert(s@.subrange(start as int, i + 1) =~= s@.subrange(start as int, i as int).push(c));
                assert(texts(pieces@).push(s@.subrange(start as int, i + 1)) =~= p.update(p.len() - 1, p.last().push(c)));
            }
            i = i + 1;
        }
        let last = String::from_str(s.substring_char(start, n));
        let ghost before = texts(pieces@);
        pieces.push(last);
        assert(texts(pieces@) =~= before.push(s@.subrange(start as int, n as int)));
        assert(s@.subrange(0, n as int) == s@);
        pieces
    }
}

/// Reading back a written list yields its values and then one empty piece,
/// provided no value's text holds a comma.
pub proof fn lemma_query_array_round_trip(items: Seq<String>, q: QueryArray)
    requires
        q.text() == joined(texts(items)),
        forall|i: int| 0 <= i < items.len() ==> !(#[trigger] items[i]@).contains(','),
    ensures
        split_on(q.text(), ',') == texts(items).push(Seq::<char>::empty()),
{
    assert forall|i: int| 0 <= i < texts(items).len() implies !(#[trigger] texts(items)[i]).contains(',') by {
        assert(texts(items)[i] == items[i]@);
    }
    lemma_split_joined(texts(items));
}

/// The pieces of a `Cookie` header separated by `"; "`, found from the left.
pub open spec fn split_pairs(s: Seq<char>) -> Seq<Seq<char>>
    decreases s.len(),
{
    if s.len() == 0 {
        seq![Seq::<char>::empty()]
    } else if s.len() >= 2 && s[0] == ';' && s[1] == ' ' {
        seq![Seq::<char>::empty()] + split_pairs(s.skip(2))
    } else {
        let r = split_pairs(s.skip(1));
        r.update(0, seq![s[0]] + r[0])
    }
}

/// `r` with `x` put in front of its first piece.
pub open spec fn prefixed(x: Seq<char>, r: Seq<Seq<char>>) -> Seq<Seq<char>> {
    r.update(0, x + r[0])
}

/// Splitting a header always yields at least one piece.
pub proof fn lemma_split_pairs_nonempty(s: Seq<char>)
    ensures
        split_pairs(s).len() >= 1,
    decreases s.len(),
{
    if s.len() >= 2 && s[0] == ';' && s[1] == ' ' {
        lemma_split_pairs_nonempty(s.skip(2));
    } else if s.len() > 0 {
        lemma_split_pairs_nonempty(s.skip(1));
    }
}

/// Position of the first `=` in `p`, or -1.
pub open spec fn eq_index(p: Seq<char>) -> int
    decreases p.len(),
{
    if p.len() == 0 {
        -1
    } else if p[0] == '=' {
        0
    } else {
        let k = eq_index(p.skip(1));
        if k < 0 {
            -1
        } else {
            k + 1
        }
    }
}

/// `eq_index` finds the first `=`, or reports that there is none.
pub proof fn lemma_eq_index(p: Seq<char>)
    ensures
        -1 <= eq_index(p) < p.len(),
        eq_index(p) >= 0 ==> p[eq_index(p)] == '=' && forall|j: int|
            0 <= j < eq_index(p) ==> p[j] != '=',
        eq_index(p) < 0 ==> forall|j: int| 0 <= j < p.len() ==> p[j] != '=',
    decreases p.len(),
{
    if p.len() > 0 && p[0] != '=' {
        lemma_eq_index(p.skip(1));
        assert forall|j: int| 1 <= j < p.len() implies p[j] == p.skip(1)[j - 1] by {}
    }
}

/// Name and value of each piece that holds an `=`, split at its first `=`.
pub open spec fn cookie_pairs(pieces: Seq<Seq<char>>) -> Seq<(Seq<char>, Seq<char>)>
    decreases pieces.len(),
{
    if pieces.len() == 0 {
        Seq::empty()
    } else {
        let rest = cookie_pairs(pieces.drop_last());
        let p = pieces.last();
        let k = eq_index(p);
        if k < 0 {
            rest
        } else {
            rest.push((p.subrange(0, k), p.subrange(k + 1, p.len() as int)))
        }
    }
}

/// The text of each name and value.
pub open spec fn pair_texts(v: Seq<(String, String)>) -> Seq<(Seq<char>, Seq<char>)> {
    v.map_values(|x: (String, String)| (x.0@, x.1@))
}

/// The `"; "`-separated pieces of `s`.
fn split_header(s: &str) -> (r: Vec<String>)
    ensures
        texts(r@) == split_pairs(s@),
{
    let n = s.unicode_len();
    let mut pieces: Vec<String> = Vec::new();
    let mut start: usize = 0;
    let mut i: usize = 0;
    assert(s@.subrange(0, 0) =~= Seq::<char>::empty());
    assert(s@.skip(0) =~= s@);
    proof {
        lemma_split_pairs_nonempty(s@);
    }
    assert(texts(pieces@) + prefixed(s@.subrange(0, 0), split_pairs(s@.skip(0))) =~= split_pairs(s@));
    while i < n
        invariant
            n == s@.len(),
            start <= i <= n,
            texts(pieces@) + prefixed(s@.subrange(start as int, i as int), split_pairs(s@.skip(i as int)))
                == split_pairs(s@),
        decreases n - i,
    {
        let ghost cur = s@.subrange(start as int, i as int);
        let ghost before = texts(pieces@);
        let ghost tail = s@.skip(i as int);
        let c = s.get_char(i);
        let sep = c == ';' && i + 1 < n && s.get_char(i + 1) == ' ';
        if sep {
            assert(tail.skip(2) =~= s@.skip(i + 2));
            proof {
                lemma_split_pairs_nonempty(s@.skip(i + 2));
            }
            let piece = String::from_str(s.substring_char(start, i));
            pieces.push(piece);
            assert(texts(pieces@) =~= before.push(cur));
            start = i + 2;
            i = i + 2;
            assert(s@.subrange(start as int, i as int) =~= Seq::<char>::empty());
            assert(texts(pieces@) + prefixed(s@.subrange(start as int, i as int), split_pairs(s@.skip(i as int)))
                =~= before + prefixed(cur, split_pairs(tail)));
        } else {
            assert(tail.skip(1) =~= s@.skip(i + 1));
            assert(tail[0] == c);
            proof {
                lemma_split_pairs_nonempty(s@.skip(i + 1));
            }
            assert(s@.subrange(start as int, i + 1) =~= cur.push(c));
            assert(cur + (seq![c] + split_pairs(s@.skip(i + 1))[0]) =~= cur.push(c) + split_pairs(s@.skip(i + 1))[0]);
            i = i + 1;
            assert(prefixed(s@.subrange(start as int, i as int), split_pairs(s@.skip(i as int)))
                =~= prefixed(cur, split_pairs(tail)));
        }
    }
    let ghost before = texts(pieces@);
    let last = String::from_str(s.substring_char(start, n));
    pieces.push(last);
    assert(s@.skip(n as int) =~= Seq::<char>::empty());
    assert(texts(pieces@) =~= before + prefixed(s@.subrange(start as int, n as int), split_pairs(s@.skip(n as int))));
    pieces
}

/// Splits one piece at its first `=`, if it has one.
fn split_once_eq(p: &str) -> (r: Option<(String, String)>)
    ensures
        eq_index(p@) < 0 ==> r is None,
        eq_index(p@) >= 0 ==> (r matches Some(kv) && kv.0@ == p@.subrange(0, eq_index(p@))
            && kv.1@ == p@.subrange(eq_index(p@) + 1, p@.len() as int)),
{
    proof {
        lemma_eq_index(p@);
    }
    let n = p.unicode_len();
    let mut i: usize = 0;
    while i < n
        invariant
            n == p@.len(),
            i <= n,
            forall|j: int| 0 <= j < i ==> p@[j] != '=',
        decreases n - i,
    {
        if p.get_char(i) == '=' {
            proof {
                lemma_eq_index(p@);
            }
            let name = String::from_str(p.substring_char(0, i));
            let value = String::from_str(p.substring_char(i + 1, n));
            return Some((name, value));
        }
        i = i + 1;
    }
    None
}

/// The name/value pairs of a `Cookie` header, in order: the header is split
/// at each `"; "`, and each piece at its first `=`; pieces without `=` are
/// skipped.
pub fn get_cookies(header: &str) -> (r: Vec<(String, String)>)
    ensures
        pair_texts(r@) == cookie_pairs(split_pairs(header@)),
{
    let pieces = split_header(header);
    let ghost all = texts(pieces@);
    let mut r: Vec<(String, String)> = Vec::new();
    let mut i: usize = 0;
    assert(all.subrange(0, 0) =~= Seq::<Seq<char>>::empty());
    assert(pair_texts(r@) =~= Seq::<(Seq<char>, Seq<char>)>::empty());
    while i < pieces.len()
        invariant
            all == texts(pieces@),
            i <= pieces@.len(),
            pair_texts(r@) == cookie_pairs(all.subrange(0, i as int)),
        decreases pieces@.len() - i,
    {
        let ghost before = pair_texts(r@);
        let ghost next = all.subrange(0, i + 1);
        assert(next.drop_last() =~= all.subrange(0, i as int));
        assert(next.last() == pieces@[i as int]@);
        match split_once_eq(pieces[i].as_str()) {
            Some(kv) => {
                r.push(kv);
                assert(pair_texts(r@) =~= before.push((kv.0@, kv.1@)));
            },
            None => {},
        }
        i = i + 1;
    }
    assert(all.subrange(0, pieces@.len() as int) =~= all);
    r
}

/// Position of the last cookie called `name`: a later cookie of the same
/// name overrides an earlier one.
pub fn find_cookie(cookies: &Vec<(String, String)>, name: &String) -> (r: Option<usize>)
    ensures
        r matches Some(i) ==> i < cookies@.len() && cookies@[i as int].0@ == name@ && forall|j: int|
            i < j < cookies@.len() ==> (#[trigger] cookies@[j]).0@ != name@,
        r is None ==> forall|j: int| 0 <= j < cookies@.len() ==> (#[trigger] cookies@[j]).0@ != name@,
{
    let mut i: usize = cookies.len();
    while i > 0
        invariant
            i <= cookies@.len(),
            forall|j: int| i <= j < cookies@.len() ==> (#[trigger] cookies@[j]).0@ != name@,
        decreases i,
    {
        i = i - 1;
        if cookies[i].0 == *name {
            return Some(i);
        }
    }
    None
}

/// A graph's new history: the newest point first, then the older points, at
/// most `HISTORY_LEN` in all.
pub fn prepend_point<T>(latest: T, history: Vec<T>) -> (r: Vec<T>)
    ensures
        r@ == (seq![latest] + history@).take(
            if history@.len() + 1 <= HISTORY_LEN {
                history@.len() + 1int
            } else {
                HISTORY_LEN as int
            },
        ),
{
    let ghost all = seq![latest] + history@;
    let mut r: Vec<T> = Vec::with_capacity(HISTORY_LEN);
    r.push(latest);
    let mut rest = history;
    rest.truncate(HISTORY_LEN - 1);
    r.append(&mut rest);
    assert(r@ =~= all.take(
        if all.len() <= HISTORY_LEN {
            all.len() as int
        } else {
            HISTORY_LEN as int
        },
    ));
    r
}

/// Rows a card spans for `num_elts` items: two rows per item pair, plus one.
pub fn calc_grid_span(num_elts: usize) -> (r: usize)
    ensures
        r == (num_elts as int + 1) / 2 + 1,
{
    num_elts / 2 + num_elts % 2 + 1
}

/// An icon from the page's sprite sheet, drawn as a square.
#[derive(Debug, Clone, Copy)]
pub struct Icon {
    name: &'static str,
    size: u8,
}

impl Icon {
    /// The icon's name in the sprite sheet.
    pub closed spec fn spec_name(&self) -> &'static str {
        self.name
    }

    /// The icon's side in pixels.
    pub closed spec fn spec_size(&self) -> u8 {
        self.size
    }

    /// An icon of the default size, 24 pixels.
    pub fn new(name: &'static str) -> (r: Icon)
        ensures
            r.spec_name() == name,
            r.spec_size() == 24,
    {
        Icon { name, size: 24 }
    }

    /// The same icon with another size.
    pub fn size(self, size: u8) -> (r: Icon)
        ensures
            r.spec_name() == self.spec_name(),
            r.spec_size() == size,
    {
        Icon { size, ..self }
    }

    /// The icon's name in the sprite sheet.
    pub fn name(&self) -> (r: &'static str)
        ensures
            r == self.spec_name(),
    {
        self.name
    }

    /// The icon's side in pixels.
    pub fn side(&self) -> (r: u8)
        ensures
            r == self.spec_size(),
    {
        self.size
    }
}

/// The kinds of redirect the pages use.
#[derive(Debug, Clone, Copy, PartialEq, Eq, Structural)]
pub enum RedirectType {
    Permanent,
    SeeOther,
}

impl RedirectType {
    /// The HTTP status of this redirect.
    pub fn status(&self) -> (r: u16)
        ensures
            *self == RedirectType::Permanent ==> r == 308,
            *self == RedirectType::SeeOther ==> r == 303,
    {
        match self {
            RedirectType::Permanent => 308,
            RedirectType::SeeOther => 303,
        }
    }
}

} // verus!
