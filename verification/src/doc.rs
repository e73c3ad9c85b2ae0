//! Generic tree document and slash-delimited field paths.
//!
//! A profile is converted into a [`DocValue`] tree so that a single field can
//! be read or replaced through a path such as `/radius_clients/0/secret`.
//! Path resolution follows the JSON-Pointer rules: the empty path selects the
//! whole document, each `/`-separated segment names an object key or a base-10
//! array index, and `~1` / `~0` in a segment stand for `/` and `~`.
use vstd::prelude::*;
use vstd::string::*;

verus! {

broadcast use vstd::std_specs::vec::group_vec_axioms, vstd::seq::group_seq_axioms;

/// A generic document node: object, array, or scalar leaf.
///
/// `Null` stands for an absent optional field; `Other` stands for a scalar
/// that the profile model has no use for (a TOML float or datetime), so that
/// such a value is never mistaken for an absent or a textual field.
pub enum DocValue {
    Null,
    Bool(bool),
    Int(i64),
    Str(String),
    Arr(Vec<DocValue>),
    Obj(Vec<(String, DocValue)>),
    Other,
}

/// The mathematical shape of a [`DocValue`]: strings become `Seq<char>`,
/// vectors become `Seq`.
pub ghost enum DocView {
    Null,
    Bool(bool),
    Int(int),
    Str(Seq<char>),
    Arr(Seq<DocView>),
    Obj(Seq<(Seq<char>, DocView)>),
    Other,
}

impl DocValue {
    /// The abstraction of this node as a [`DocView`] tree.
    pub open spec fn view(self) -> DocView
        decreases self,
        via Self::view_decreases
    {
        match self {
            DocValue::Null => DocView::Null,
            DocValue::Bool(b) => DocView::Bool(b),
            DocValue::Int(i) => DocView::Int(i as int),
            DocValue::Str(s) => DocView::Str(s@),
            DocValue::Arr(items) => DocView::Arr(doc_seq_view(items@)),
            DocValue::Obj(pairs) => DocView::Obj(doc_pairs_view(pairs@)),
            DocValue::Other => DocView::Other,
        }
    }

    #[via_fn]
    proof fn view_decreases(self) {
        match self {
            DocValue::Arr(items) => {
                assert(decreases_to!(self => items));
                assert(decreases_to!(items => items@));
            },
            DocValue::Obj(pairs) => {
                assert(decreases_to!(self => pairs));
                assert(decreases_to!(pairs => pairs@));
            },
            _ => {},
        }
    }
}

/// The views of a sequence of nodes, elementwise.
pub open spec fn doc_seq_view(items: Seq<DocValue>) -> Seq<DocView>
    decreases items,
    via doc_seq_view_decreases
{
    if items.len() == 0 {
        Seq::<DocView>::empty()
    } else {
        seq![items[0].view()] + doc_seq_view(items.skip(1))
    }
}

#[via_fn]
proof fn doc_seq_view_decreases(items: Seq<DocValue>) {
    if items.len() > 0 {
        assert(decreases_to!(items => items[0]));
        vstd::seq::axiom_seq_subrange_decreases(items, 1, items.len() as int);
        assert(items.skip(1) =~= items.subrange(1, items.len() as int));
    }
}

/// The views of a sequence of key-value pairs, elementwise.
pub open spec fn doc_pairs_view(pairs: Seq<(String, DocValue)>) -> Seq<(Seq<char>, DocView)>
    decreases pairs,
    via doc_pairs_view_decreases
{
    if pairs.len() == 0 {
        Seq::<(Seq<char>, DocView)>::empty()
    } else {
        seq![(pairs[0].0@, pairs[0].1.view())] + doc_pairs_view(pairs.skip(1))
    }
}

#[via_fn]
proof fn doc_pairs_view_decreases(pairs: Seq<(String, DocValue)>) {
    if pairs.len() > 0 {
        assert(decreases_to!(pairs => pairs[0]));
        assert(decreases_to!(pairs[0] => pairs[0].1));
        vstd::seq::axiom_seq_subrange_decreases(pairs, 1, pairs.len() as int);
        assert(pairs.skip(1) =~= pairs.subrange(1, pairs.len() as int));
    }
}

/// One left-to-right pass replacing the two-character pattern `'~' second`
/// by the single character `to`, as `str::replace` does with a two-character
/// pattern.
pub open spec fn replace_pair(s: Seq<char>, second: char, to: char) -> Seq<char>
    decreases s.len(),
{
    if s.len() < 2 {
        s
    } else if s[0] == '~' && s[1] == second {
        seq![to] + replace_pair(s.skip(2), second, to)
    } else {
        seq![s[0]] + replace_pair(s.skip(1), second, to)
    }
}

/// Unescaping of one path segment: `~1` becomes `/`, then `~0` becomes `~`.
pub open spec fn unescape(seg: Seq<char>) -> Seq<char> {
    replace_pair(replace_pair(seg, '1', '/'), '0', '~')
}

/// Splitting on `/`. The result always holds at least one segment; splitting
/// the empty sequence yields one empty segment.
pub open spec fn split_segments(s: Seq<char>) -> Seq<Seq<char>>
    decreases s.len(),
{
    if s.len() == 0 {
        seq![Seq::<char>::empty()]
    } else if s[0] == '/' {
        seq![Seq::<char>::empty()] + split_segments(s.skip(1))
    } else {
        let rest = split_segments(s.skip(1));
        seq![seq![s[0]] + rest[0]] + rest.skip(1)
    }
}

/// A path is the empty sequence of segments when it is empty, the unescaped
/// `/`-separated segments when it starts with `/`, and invalid otherwise.
pub open spec fn parse_pointer(p: Seq<char>) -> Option<Seq<Seq<char>>> {
    if p.len() == 0 {
        Some(Seq::<Seq<char>>::empty())
    } else if p[0] != '/' {
        None
    } else {
        Some(split_segments(p.skip(1)).map_values(|seg: Seq<char>| unescape(seg)))
    }
}

pub open spec fn is_digit(c: char) -> bool {
    '0' <= c && c <= '9'
}

pub open spec fn digit_value(c: char) -> int {
    c as int - '0' as int
}

pub open spec fn all_digits(s: Seq<char>) -> bool {
    forall|i: int| 0 <= i < s.len() ==> is_digit(#[trigger] s[i])
}

/// The value of a base-10 numeral, most significant digit first.
pub open spec fn numeral_value(s: Seq<char>) -> int
    decreases s.len(),
{
    if s.len() == 0 {
        0
    } else {
        numeral_value(s.drop_last()) * 10 + digit_value(s.last())
    }
}

/// An array segment is a non-negative base-10 index: digits only, and no
/// leading zero unless the segment is exactly `0`.
pub open spec fn index_of_segment(seg: Seq<char>) -> Option<int> {
    if seg.len() == 0 {
        None
    } else if seg[0] == '0' && seg.len() != 1 {
        None
    } else if !all_digits(seg) {
        None
    } else {
        Some(numeral_value(seg))
    }
}

/// The value under the first pair whose key equals `key`, if any.
pub open spec fn lookup(pairs: Seq<(Seq<char>, DocView)>, key: Seq<char>) -> Option<DocView>
    decreases pairs.len(),
{
    if pairs.len() == 0 {
        None
    } else if pairs[0].0 == key {
        Some(pairs[0].1)
    } else {
        lookup(pairs.skip(1), key)
    }
}

/// The index of the first pair whose key equals `key`, if any.
pub open spec fn key_index(pairs: Seq<(Seq<char>, DocView)>, key: Seq<char>) -> Option<int>
    decreases pairs.len(),
{
    if pairs.len() == 0 {
        None
    } else if pairs[0].0 == key {
        Some(0int)
    } else {
        match key_index(pairs.skip(1), key) {
            Some(i) => Some(i + 1),
            None => None,
        }
    }
}

/// Resolution of a segment list against a document: objects are entered by
/// key, arrays by index, and any leaf with segments left over fails.
pub open spec fn doc_get(d: DocView, segs: Seq<Seq<char>>) -> Option<DocView>
    decreases segs.len(),
{
    if segs.len() == 0 {
        Some(d)
    } else {
        match d {
            DocView::Obj(pairs) => match lookup(pairs, segs[0]) {
                Some(v) => doc_get(v, segs.skip(1)),
                None => None,
            },
            DocView::Arr(items) => match index_of_segment(segs[0]) {
                Some(i) => if 0 <= i < items.len() {
                    doc_get(items[i], segs.skip(1))
                } else {
                    None
                },
                None => None,
            },
            _ => None,
        }
    }
}

/// Resolution of a whole path: `None` when the path itself is invalid or
/// when a segment fails to resolve.
pub open spec fn ptr_get(d: DocView, path: Seq<char>) -> Option<DocView> {
    match parse_pointer(path) {
        Some(segs) => doc_get(d, segs),
        None => None,
    }
}

/// Replacement of the node under `segs` by `v`; the rest of the document is
/// unchanged. Fails exactly where [`doc_get`] fails.
pub open spec fn doc_set(d: DocView, segs: Seq<Seq<char>>, v: DocView) -> Option<DocView>
    decreases segs.len(),
{
    if segs.len() == 0 {
        Some(v)
    } else {
        match d {
            DocView::Obj(pairs) => match key_index(pairs, segs[0]) {
                Some(i) => match doc_set(pairs[i].1, segs.skip(1), v) {
                    Some(nd) => Some(DocView::Obj(pairs.update(i, (pairs[i].0, nd)))),
                    None => None,
                },
                None => None,
            },
            DocView::Arr(items) => match index_of_segment(segs[0]) {
                Some(i) => if 0 <= i < items.len() {
                    match doc_set(items[i], segs.skip(1), v) {
                        Some(nd) => Some(DocView::Arr(items.update(i, nd))),
                        None => None,
                    }
                } else {
                    None
                },
                None => None,
            },
            _ => None,
        }
    }
}

/// Replacement along a whole path.
pub open spec fn ptr_set(d: DocView, path: Seq<char>, v: DocView) -> Option<DocView> {
    match parse_pointer(path) {
        Some(segs) => doc_set(d, segs, v),
        None => None,
    }
}

pub proof fn lemma_doc_seq_view(items: Seq<DocValue>)
    ensures
        doc_seq_view(items).len() == items.len(),
        forall|i: int| 0 <= i < items.len() ==> #[trigger] doc_seq_view(items)[i] == items[i]@,
    decreases items.len(),
{
    if items.len() > 0 {
        lemma_doc_seq_view(items.skip(1));
        assert forall|i: int| 0 <= i < items.len() implies #[trigger] doc_seq_view(items)[i]
            == items[i]@ by {
            if i > 0 {
                assert(doc_seq_view(items)[i] == doc_seq_view(items.skip(1))[i - 1]);
                assert(items.skip(1)[i - 1] == items[i]);
            }
        }
    }
}

pub proof fn lemma_doc_pairs_view(pairs: Seq<(String, DocValue)>)
    ensures
        doc_pairs_view(pairs).len() == pairs.len(),
        forall|i: int| 0 <= i < pairs.len() ==> #[trigger] doc_pairs_view(pairs)[i] == (
        pairs[i].0@,
        pairs[i].1@,
        ),
    decreases pairs.len(),
{
    if pairs.len() > 0 {
        lemma_doc_pairs_view(pairs.skip(1));
        assert forall|i: int| 0 <= i < pairs.len() implies #[trigger] doc_pairs_view(pairs)[i] == (
        pairs[i].0@, pairs[i].1@) by {
            if i > 0 {
                assert(doc_pairs_view(pairs)[i] == doc_pairs_view(pairs.skip(1))[i - 1]);
                assert(pairs.skip(1)[i - 1] == pairs[i]);
            }
        }
    }
}

/// How [`key_index`] and [`lookup`] agree: both find the first matching pair.
pub proof fn lemma_key_index_lookup(pairs: Seq<(Seq<char>, DocView)>, key: Seq<char>)
    ensures
        match key_index(pairs, key) {
            Some(i) => 0 <= i < pairs.len() && pairs[i].0 == key && lookup(pairs, key) == Some(
                pairs[i].1,
            ) && (forall|j: int| 0 <= j < i ==> (#[trigger] pairs[j].0) != key),
            None => lookup(pairs, key) is None && forall|j: int|
                0 <= j < pairs.len() ==> (#[trigger] pairs[j].0) != key,
        },
    decreases pairs.len(),
{
    if pairs.len() > 0 {
        lemma_key_index_lookup(pairs.skip(1), key);
        assert(forall|j: int| 1 <= j < pairs.len() ==> pairs.skip(1)[j - 1] == (
        #[trigger] pairs[j]));
        match key_index(pairs, key) {
            Some(i) => {
                assert forall|j: int| 0 <= j < i implies (#[trigger] pairs[j].0) != key by {
                    if j > 0 {
                        assert(pairs.skip(1)[j - 1] == pairs[j]);
                    }
                }
            },
            None => {},
        }
    }
}

/// The first matching position determines [`key_index`].
pub proof fn lemma_key_index_first(pairs: Seq<(Seq<char>, DocView)>, key: Seq<char>, j: int)
    requires
        0 <= j < pairs.len(),
        pairs[j].0 == key,
        forall|t: int| 0 <= t < j ==> (#[trigger] pairs[t].0) != key,
    ensures
        key_index(pairs, key) == Some(j),
    decreases pairs.len(),
{
    if j > 0 {
        lemma_key_index_first(pairs.skip(1), key, j - 1);
    }
}

/// Setting fails exactly where getting fails.
pub proof fn lemma_get_set(d: DocView, segs: Seq<Seq<char>>, v: DocView)
    ensures
        (doc_set(d, segs, v) is Some) <==> (doc_get(d, segs) is Some),
    decreases segs.len(),
{
    if segs.len() > 0 {
        match d {
            DocView::Obj(pairs) => {
                lemma_key_index_lookup(pairs, segs[0]);
                match key_index(pairs, segs[0]) {
                    Some(i) => lemma_get_set(pairs[i].1, segs.skip(1), v),
                    None => {},
                }
            },
            DocView::Arr(items) => {
                match index_of_segment(segs[0]) {
                    Some(i) => if 0 <= i < items.len() {
                        lemma_get_set(items[i], segs.skip(1), v)
                    },
                    None => {},
                }
            },
            _ => {},
        }
    }
}

/// After a successful replacement, reading the same segments yields the new
/// value.
pub proof fn lemma_set_then_get(d: DocView, segs: Seq<Seq<char>>, v: DocView)
    requires
        doc_set(d, segs, v) is Some,
    ensures
        doc_get(doc_set(d, segs, v)->0, segs) == Some(v),
    decreases segs.len(),
{
    if segs.len() > 0 {
        match d {
            DocView::Obj(pairs) => {
                lemma_key_index_lookup(pairs, segs[0]);
                let i = key_index(pairs, segs[0])->0;
                lemma_set_then_get(pairs[i].1, segs.skip(1), v);
                let nd = doc_set(pairs[i].1, segs.skip(1), v)->0;
                let updated = pairs.update(i, (pairs[i].0, nd));
                lemma_key_index_first(updated, segs[0], i);
                lemma_key_index_lookup(updated, segs[0]);
            },
            DocView::Arr(items) => {
                let i = index_of_segment(segs[0])->0;
                lemma_set_then_get(items[i], segs.skip(1), v);
            },
            _ => {},
        }
    }
}

/// Setting a field and then getting the same path returns the new value;
/// stated over whole paths.
pub proof fn lemma_ptr_set_then_get(d: DocView, path: Seq<char>, v: DocView)
    requires
        ptr_set(d, path, v) is Some,
    ensures
        ptr_get(ptr_set(d, path, v)->0, path) == Some(v),
{
    let segs = parse_pointer(path)->0;
    lemma_set_then_get(d, segs, v);
}

/// The segment list a vector of character vectors stands for.
pub open spec fn segs_view(v: Seq<Vec<char>>) -> Seq<Seq<char>> {
    v.map_values(|c: Vec<char>| c@)
}

/// The characters of a string slice, gathered into a vector.
fn str_chars(s: &str) -> (r: Vec<char>)
    ensures
        r@ == s@,
{
    let n: usize = s.unicode_len();
    let mut r: Vec<char> = Vec::new();
    let mut i: usize = 0;
    while i < n
        invariant
            i <= n,
            n == s@.len(),
            r@.len() == i,
            forall|k: int| 0 <= k < i ==> r@[k] == s@[k],
        decreases n - i,
    {
        r.push(s.get_char(i));
        i = i + 1;
    }
    proof {
        assert(r@ =~= s@);
    }
    r
}

/// Whether two string slices hold the same characters.
pub fn str_eq(a: &str, b: &str) -> (r: bool)
    ensures
        r == (a@ == b@),
{
    let n: usize = a.unicode_len();
    if n != b.unicode_len() {
        return false;
    }
    let mut i: usize = 0;
    while i < n
        invariant
            i <= n,
            n == a@.len(),
            n == b@.len(),
            forall|k: int| 0 <= k < i ==> a@[k] == b@[k],
        decreases n - i,
    {
        if a.get_char(i) != b.get_char(i) {
            assert(a@[i as int] != b@[i as int]);
            return false;
        }
        i = i + 1;
    }
    proof {
        assert(a@ =~= b@);
    }
    true
}

/// Whether a string equals a character vector, character by character.
fn string_eq_chars(s: &String, cs: &Vec<char>) -> (r: bool)
    ensures
        r == (s@ == cs@),
{
    let st: &str = s.as_str();
    let n: usize = st.unicode_len();
    if n != cs.len() {
        return false;
    }
    let mut i: usize = 0;
    while i < n
        invariant
            i <= n,
            n == s@.len(),
            n == cs@.len(),
            st@ == s@,
            forall|k: int| 0 <= k < i ==> s@[k] == cs@[k],
        decreases n - i,
    {
        if st.get_char(i) != cs[i] {
            assert(s@[i as int] != cs@[i as int]);
            return false;
        }
        i = i + 1;
    }
    proof {
        assert(s@ =~= cs@);
    }
    true
}

/// One replacement pass over a character vector, mirroring [`replace_pair`].
fn replace_pair_exec(s: &Vec<char>, second: char, to: char) -> (r: Vec<char>)
    ensures
        r@ == replace_pair(s@, second, to),
{
    let mut r: Vec<char> = Vec::new();
    let mut i: usize = 0;
    proof {
        assert(s@.skip(0) =~= s@);
        assert(Seq::<char>::empty() + replace_pair(s@, second, to) =~= replace_pair(
            s@,
            second,
            to,
        ));
    }
    while i < s.len()
        invariant
            i <= s@.len(),
            replace_pair(s@, second, to) == r@ + replace_pair(s@.skip(i as int), second, to),
        decreases s@.len() - i,
    {
        let ghost tail = s@.skip(i as int);
        proof {
            assert(tail.len() == s@.len() - i);
            assert(tail[0] == s@[i as int]);
        }
        if i + 1 < s.len() && s[i] == '~' && s[i + 1] == second {
            proof {
                assert(tail[1] == s@[i as int + 1]);
                assert(tail.skip(2) =~= s@.skip(i as int + 2));
                assert(replace_pair(tail, second, to) == seq![to] + replace_pair(
                    s@.skip(i as int + 2),
                    second,
                    to,
                ));
                assert((r@ + seq![to]) + replace_pair(s@.skip(i as int + 2), second, to) =~= r@ + (
                seq![to] + replace_pair(s@.skip(i as int + 2), second, to)));
            }
            r.push(to);
            i = i + 2;
        } else {
            proof {
                if tail.len() >= 2 {
                    assert(tail[1] == s@[i as int + 1]);
                    assert(tail.skip(1) =~= s@.skip(i as int + 1));
                    assert(replace_pair(tail, second, to) == seq![tail[0]] + replace_pair(
                        s@.skip(i as int + 1),
                        second,
                        to,
                    ));
                } else {
                    assert(tail =~= seq![tail[0]]);
                    assert(s@.skip(i as int + 1) =~= Seq::<char>::empty());
                    assert(replace_pair(tail, second, to) == tail);
                    assert(replace_pair(tail, second, to) == seq![tail[0]] + replace_pair(
                        s@.skip(i as int + 1),
                        second,
                        to,
                    ));
                }
                assert((r@ + seq![s@[i as int]]) + replace_pair(s@.skip(i as int + 1), second, to)
                    =~= r@ + (seq![s@[i as int]] + replace_pair(s@.skip(i as int + 1), second, to)));
            }
            let c = s[i];
            r.push(c);
            i = i + 1;
        }
    }
    proof {
        assert(s@.skip(s@.len() as int) =~= Seq::<char>::empty());
        assert(r@ + Seq::<char>::empty() =~= r@);
    }
    r
}

/// A replacement pass leaves a sequence without `~` untouched.
pub proof fn lemma_replace_pair_identity(s: Seq<char>, second: char, to: char)
    requires
        forall|i: int| 0 <= i < s.len() ==> s[i] != '~',
    ensures
        replace_pair(s, second, to) == s,
    decreases s.len(),
{
    if s.len() >= 2 {
        assert forall|i: int| 0 <= i < s.skip(1).len() implies s.skip(1)[i] != '~' by {
            assert(s.skip(1)[i] == s[i + 1]);
        }
        lemma_replace_pair_identity(s.skip(1), second, to);
        assert(seq![s[0]] + s.skip(1) =~= s);
    }
}

/// Unescaping of one segment, mirroring [`unescape`].
fn unescape_exec(seg: &Vec<char>) -> (r: Vec<char>)
    ensures
        r@ == unescape(seg@),
{
    let pass1 = replace_pair_exec(seg, '1', '/');
    replace_pair_exec(&pass1, '0', '~')
}

/// How [`split_segments`] behaves on a sequence whose first `k` characters
/// hold no separator.
pub proof fn lemma_split_prefix(s: Seq<char>, k: int)
    requires
        0 <= k <= s.len(),
        forall|t: int| 0 <= t < k ==> s[t] != '/',
    ensures
        k == s.len() ==> split_segments(s) == seq![s],
        k < s.len() && s[k] == '/' ==> split_segments(s) == seq![s.take(k)] + split_segments(
            s.skip(k + 1),
        ),
    decreases k,
{
    if k == 0 {
        if 0 == s.len() {
            assert(Seq::<char>::empty() =~= s);
            assert(split_segments(s) =~= seq![s]);
        } else if s[0] == '/' {
            assert(s.take(0) =~= Seq::<char>::empty());
            assert(s.skip(1) =~= s.skip(0int + 1));
        }
    } else {
        assert(s.len() > 0 && s[0] != '/');
        let rest = split_segments(s.skip(1));
        assert(split_segments(s) == seq![seq![s[0]] + rest[0]] + rest.skip(1));
        assert forall|t: int| 0 <= t < k - 1 implies s.skip(1)[t] != '/' by {
            assert(s.skip(1)[t] == s[t + 1]);
        }
        lemma_split_prefix(s.skip(1), k - 1);
        if k == s.len() {
            assert(rest == seq![s.skip(1)]);
            assert(seq![s[0]] + s.skip(1) =~= s);
            assert(rest.skip(1) =~= Seq::<Seq<char>>::empty());
            assert(split_segments(s) =~= seq![s]);
        } else if s[k] == '/' {
            assert(s.skip(1)[k - 1] == s[k]);
            assert(rest == seq![s.skip(1).take(k - 1)] + split_segments(s.skip(1).skip(k)));
            assert(rest[0] == s.skip(1).take(k - 1));
            assert(seq![s[0]] + s.skip(1).take(k - 1) =~= s.take(k));
            assert(s.skip(1).skip(k) =~= s.skip(k + 1));
            assert(rest.skip(1) =~= split_segments(s.skip(k + 1)));
            assert(split_segments(s) =~= seq![s.take(k)] + split_segments(s.skip(k + 1)));
        }
    }
}

/// Splitting the characters after the leading `/` into raw segments,
/// mirroring [`split_segments`].
fn split_exec(chars: &Vec<char>) -> (r: Vec<Vec<char>>)
    requires
        chars@.len() >= 1,
    ensures
        segs_view(r@) == split_segments(chars@.skip(1)),
{
    let n: usize = chars.len();
    let mut out: Vec<Vec<char>> = Vec::new();
    let mut pos: usize = 1;
    proof {
        assert(Seq::<Seq<char>>::empty() + split_segments(chars@.skip(1)) =~= split_segments(
            chars@.skip(1),
        ));
        assert(segs_view(out@) =~= Seq::<Seq<char>>::empty());
    }
    loop
        invariant
            1 <= pos <= n,
            n == chars@.len(),
            split_segments(chars@.skip(1)) == segs_view(out@) + split_segments(
                chars@.skip(pos as int),
            ),
        decreases n - pos,
    {
        let ghost suffix = chars@.skip(pos as int);
        let mut j: usize = pos;
        while j < n && chars[j] != '/'
            invariant
                pos <= j <= n,
                n == chars@.len(),
                forall|k: int| pos <= k < j ==> chars@[k] != '/',
            decreases n - j,
        {
            j = j + 1;
        }
        let mut seg: Vec<char> = Vec::new();
        let mut m: usize = pos;
        while m < j
            invariant
                pos <= m <= j <= n,
                n == chars@.len(),
                seg@.len() == m - pos,
                forall|k: int| 0 <= k < seg@.len() ==> seg@[k] == chars@[pos + k],
            decreases j - m,
        {
            seg.push(chars[m]);
            m = m + 1;
        }
        proof {
            assert forall|t: int| 0 <= t < j - pos implies suffix[t] != '/' by {
                assert(suffix[t] == chars@[pos + t]);
            }
            lemma_split_prefix(suffix, j - pos);
        }
        let ghost old_segs = segs_view(out@);
        if j == n {
            proof {
                assert(seg@ =~= suffix);
                assert(split_segments(suffix) == seq![seg@]);
            }
            out.push(seg);
            proof {
                assert(segs_view(out@) =~= old_segs + seq![seg@]);
                assert(old_segs + seq![seg@] =~= old_segs + split_segments(suffix));
            }
            return out;
        }
        proof {
            assert(chars@[j as int] == '/');
            assert(suffix[j - pos] == '/');
            assert(seg@ =~= suffix.take(j - pos));
            assert(suffix.skip(j - pos + 1) =~= chars@.skip(j as int + 1));
            assert(split_segments(suffix) == seq![seg@] + split_segments(chars@.skip(j as int + 1)));
        }
        out.push(seg);
        proof {
            assert(segs_view(out@) =~= old_segs + seq![seg@]);
            assert((old_segs + seq![seg@]) + split_segments(chars@.skip(j as int + 1)) =~= old_segs
                + (seq![seg@] + split_segments(chars@.skip(j as int + 1))));
        }
        pos = j + 1;
    }
}

/// Parsing of a whole path into unescaped segments, mirroring
/// [`parse_pointer`].
fn parse_pointer_exec(p: &str) -> (r: Option<Vec<Vec<char>>>)
    ensures
        match parse_pointer(p@) {
            Some(ss) => r matches Some(v) && segs_view(v@) == ss,
            None => r is None,
        },
{
    let chars = str_chars(p);
    if chars.len() == 0 {
        let r: Vec<Vec<char>> = Vec::new();
        proof {
            assert(segs_view(r@) =~= Seq::<Seq<char>>::empty());
        }
        return Some(r);
    }
    if chars[0] != '/' {
        return None;
    }
    let raw = split_exec(&chars);
    let ghost target = split_segments(p@.skip(1)).map_values(|seg: Seq<char>| unescape(seg));
    let mut out: Vec<Vec<char>> = Vec::new();
    let mut i: usize = 0;
    while i < raw.len()
        invariant
            i <= raw@.len(),
            segs_view(raw@) == split_segments(p@.skip(1)),
            target == split_segments(p@.skip(1)).map_values(|seg: Seq<char>| unescape(seg)),
            out@.len() == i,
            forall|k: int| 0 <= k < i ==> out@[k]@ == target[k],
        decreases raw@.len() - i,
    {
        let u = unescape_exec(&raw[i]);
        proof {
            assert(segs_view(raw@)[i as int] == raw@[i as int]@);
            assert(target[i as int] == unescape(segs_view(raw@)[i as int]));
        }
        out.push(u);
        i = i + 1;
    }
    proof {
        assert(segs_view(raw@).len() == raw@.len());
        assert(segs_view(out@) =~= target);
    }
    Some(out)
}

proof fn lemma_numeral_nonneg(s: Seq<char>)
    requires
        all_digits(s),
    ensures
        numeral_value(s) >= 0,
    decreases s.len(),
{
    if s.len() > 0 {
        assert(all_digits(s.drop_last()));
        lemma_numeral_nonneg(s.drop_last());
    }
}

proof fn lemma_numeral_prefix_le(s: Seq<char>, i: int)
    requires
        all_digits(s),
        0 <= i <= s.len(),
    ensures
        numeral_value(s.take(i)) <= numeral_value(s),
    decreases s.len() - i,
{
    if i < s.len() {
        lemma_numeral_prefix_le(s, i + 1);
        assert(s.take(i + 1).drop_last() =~= s.take(i));
        assert(all_digits(s.take(i)));
        lemma_numeral_nonneg(s.take(i));
        assert(numeral_value(s.take(i + 1)) == numeral_value(s.take(i)) * 10 + digit_value(
            s.take(i + 1).last(),
        ));
        assert(numeral_value(s.take(i)) * 10 >= numeral_value(s.take(i)));
    } else {
        assert(s.take(i) =~= s);
    }
}

/// Parsing of an array index, mirroring [`index_of_segment`]; an index too
/// large for `usize` cannot address any element and is reported as absent.
fn parse_index_exec(seg: &Vec<char>) -> (r: Option<usize>)
    ensures
        match index_of_segment(seg@) {
            Some(n) => if n <= usize::MAX {
                r == Some(n as usize)
            } else {
                r is None
            },
            None => r is None,
        },
{
    if seg.len() == 0 {
        return None;
    }
    if seg[0] == '0' && seg.len() != 1 {
        return None;
    }
    let mut acc: usize = 0;
    let mut i: usize = 0;
    proof {
        assert(seg@.take(0) =~= Seq::<char>::empty());
    }
    while i < seg.len()
        invariant
            i <= seg@.len(),
            seg@.len() > 0,
            !(seg@[0] == '0' && seg@.len() != 1),
            forall|k: int| 0 <= k < i ==> is_digit(#[trigger] seg@[k]),
            acc == numeral_value(seg@.take(i as int)),
        decreases seg@.len() - i,
    {
        let c = seg[i];
        if c < '0' || c > '9' {
            assert(!all_digits(seg@));
            return None;
        }
        let d: usize = (c as usize) - ('0' as usize);
        proof {
            assert(d == digit_value(seg@[i as int]));
            assert(seg@.take(i as int + 1).drop_last() =~= seg@.take(i as int));
            assert(seg@.take(i as int + 1).last() == seg@[i as int]);
            lemma_numeral_nonneg(seg@.take(i as int));
        }
        if acc > (usize::MAX - d) / 10 {
            proof {
                assert(acc * 10 + d > usize::MAX) by (nonlinear_arith)
                    requires
                        acc > (usize::MAX - d) / 10,
                        d <= usize::MAX,
                ;
                assert(numeral_value(seg@.take(i as int + 1)) > usize::MAX);
                assert forall|k: int| 0 <= k < i + 1 implies is_digit(
                    #[trigger] seg@.take(i as int + 1)[k],
                ) by {
                    assert(seg@.take(i as int + 1)[k] == seg@[k]);
                }
                if all_digits(seg@) {
                    lemma_numeral_prefix_le(seg@, i as int + 1);
                    assert(numeral_value(seg@) > usize::MAX);
                }
            }
            return None;
        }
        proof {
            assert(acc * 10 + d <= usize::MAX) by (nonlinear_arith)
                requires
                    acc <= (usize::MAX - d) / 10,
                    d <= usize::MAX,
                    acc >= 0,
            ;
        }
        acc = acc * 10 + d;
        i = i + 1;
    }
    proof {
        assert(seg@.take(seg@.len() as int) =~= seg@);
        assert(all_digits(seg@));
    }
    Some(acc)
}

/// Resolution of the segments from position `k` onward, mirroring
/// [`doc_get`].
#[verifier::loop_isolation(false)]
fn get_at<'a>(d: &'a DocValue, segs: &Vec<Vec<char>>, k: usize) -> (r: Option<&'a DocValue>)
    requires
        k <= segs@.len(),
    ensures
        match doc_get(d@, segs_view(segs@).skip(k as int)) {
            Some(v) => r matches Some(x) && x@ == v,
            None => r is None,
        },
    decreases segs@.len() - k,
{
    let ghost rest = segs_view(segs@).skip(k as int);
    if k == segs.len() {
        proof {
            assert(rest =~= Seq::<Seq<char>>::empty());
        }
        return Some(d);
    }
    let ghost key = segs@[k as int]@;
    proof {
        assert(segs.len() == segs@.len());
        assert(rest.len() > 0);
        assert(rest[0] == key);
        assert(rest.skip(1) =~= segs_view(segs@).skip(k as int + 1));
    }
    match d {
        DocValue::Obj(pairs) => {
            let ghost pv = doc_pairs_view(pairs@);
            proof {
                lemma_doc_pairs_view(pairs@);
            }
            let mut j: usize = 0;
            while j < pairs.len()
                invariant
                    j <= pairs@.len(),
                    k < segs@.len(),
                    key == segs@[k as int]@,
                    pv == doc_pairs_view(pairs@),
                    pv.len() == pairs@.len(),
                    forall|t: int| 0 <= t < pairs@.len() ==> #[trigger] pv[t] == (
                    pairs@[t].0@,
                    pairs@[t].1@,
                    ),
                    forall|t: int| 0 <= t < j ==> (#[trigger] pv[t].0) != key,
                decreases pairs@.len() - j,
            {
                if string_eq_chars(&pairs[j].0, &segs[k]) {
                    proof {
                        lemma_key_index_first(pv, key, j as int);
                        lemma_key_index_lookup(pv, key);
                        assert(lookup(pv, key) == Some(pairs@[j as int].1@));
                        assert(d@ == DocView::Obj(pv));
                        assert(doc_get(d@, rest) == doc_get(
                            pairs@[j as int].1@,
                            segs_view(segs@).skip(k as int + 1),
                        ));
                    }
                    return get_at(&pairs[j].1, segs, k + 1);
                }
                j = j + 1;
            }
            proof {
                lemma_key_index_lookup(pv, key);
                match key_index(pv, key) {
                    Some(i) => {
                        assert(pv[i].0 != key);
                    },
                    None => {},
                }
                assert(lookup(pv, key) is None);
                assert(d@ == DocView::Obj(pv));
                assert(doc_get(d@, rest) is None);
            }
            None
        },
        DocValue::Arr(items) => {
            proof {
                lemma_doc_seq_view(items@);
            }
            match parse_index_exec(&segs[k]) {
                Some(i) => {
                    if i < items.len() {
                        proof {
                            assert(d@ == DocView::Arr(doc_seq_view(items@)));
                            if index_of_segment(key) is Some {
                                lemma_numeral_nonneg(key);
                            }
                            assert(index_of_segment(key) == Some(i as int));
                            assert(doc_seq_view(items@).len() == items@.len());
                            assert(doc_seq_view(items@)[i as int] == items@[i as int]@);
                            assert(rest.skip(1) == segs_view(segs@).skip(k as int + 1));
                            assert(doc_get(d@, rest) == doc_get(
                                items@[i as int]@,
                                segs_view(segs@).skip(k as int + 1),
                            ));
                        }
                        get_at(&items[i], segs, k + 1)
                    } else {
                        proof {
                            assert(doc_get(d@, rest) is None);
                        }
                        None
                    }
                },
                None => {
                    proof {
                        assert(items.len() == items@.len());
                        match index_of_segment(key) {
                            Some(n) => {
                                assert(items@.len() <= usize::MAX);
                            },
                            None => {},
                        }
                        assert(doc_get(d@, rest) is None);
                    }
                    None
                },
            }
        },
        _ => {
            proof {
                assert(doc_get(d@, rest) is None);
            }
            None
        },
    }
}

/// Resolves a slash-delimited path against a document, without changing it.
pub fn pointer_get<'a>(d: &'a DocValue, path: &str) -> (r: Option<&'a DocValue>)
    ensures
        match ptr_get(d@, path@) {
            Some(v) => r matches Some(x) && x@ == v,
            None => r is None,
        },
{
    match parse_pointer_exec(path) {
        Some(segs) => {
            proof {
                assert(segs_view(segs@).skip(0) =~= segs_view(segs@));
            }
            get_at(d, &segs, 0)
        },
        None => None,
    }
}

/// Replacement of the node at the segments from `k` onward, mirroring
/// [`doc_set`]; the path is known to resolve. Hands back the node that was
/// replaced together with the updated document.
#[verifier::loop_isolation(false)]
fn set_at(d: DocValue, segs: &Vec<Vec<char>>, k: usize, v: DocValue) -> (r: (DocValue, DocValue))
    requires
        k <= segs@.len(),
        doc_set(d@, segs_view(segs@).skip(k as int), v@) is Some,
    ensures
        Some(r.0@) == doc_get(d@, segs_view(segs@).skip(k as int)),
        Some(r.1@) == doc_set(d@, segs_view(segs@).skip(k as int), v@),
    decreases segs@.len() - k,
{
    let ghost rest = segs_view(segs@).skip(k as int);
    if k == segs.len() {
        proof {
            assert(rest =~= Seq::<Seq<char>>::empty());
        }
        return (d, v);
    }
    let ghost key = segs@[k as int]@;
    proof {
        assert(segs.len() == segs@.len());
        assert(rest.len() > 0);
        assert(rest[0] == key);
        assert(rest.skip(1) =~= segs_view(segs@).skip(k as int + 1));
    }
    match d {
        DocValue::Obj(mut pairs) => {
            let ghost pv = doc_pairs_view(pairs@);
            proof {
                lemma_doc_pairs_view(pairs@);
                lemma_key_index_lookup(pv, key);
            }
            let ghost i0 = key_index(pv, key)->0;
            let mut j: usize = 0;
            while j < pairs.len()
                invariant
                    j <= pairs@.len(),
                    k < segs@.len(),
                    key == segs@[k as int]@,
                    rest == segs_view(segs@).skip(k as int),
                    rest.len() > 0 && rest[0] == key,
                    rest.skip(1) == segs_view(segs@).skip(k as int + 1),
                    doc_set(DocView::Obj(pv), rest, v@) is Some,
                    pv == doc_pairs_view(pairs@),
                    pv.len() == pairs@.len(),
                    key_index(pv, key) == Some(i0),
                    0 <= i0 < pv.len(),
                    pv[i0].0 == key,
                    forall|t: int| 0 <= t < pairs@.len() ==> #[trigger] pv[t] == (
                    pairs@[t].0@,
                    pairs@[t].1@,
                    ),
                    forall|t: int| 0 <= t < j ==> (#[trigger] pv[t].0) != key,
                    j <= i0,
                decreases pairs@.len() - j,
            {
                if string_eq_chars(&pairs[j].0, &segs[k]) {
                    proof {
                        lemma_key_index_first(pv, key, j as int);
                        assert(i0 == j);
                    }
                    let ghost old_pairs = pairs@;
                    let pair = pairs.remove(j);
                    let key_string = pair.0;
                    let child = pair.1;
                    proof {
                        assert(pair == old_pairs[j as int]);
                        assert(child@ == pv[j as int].1);
                        assert(doc_set(child@, rest.skip(1), v@) is Some);
                    }
                    let result = set_at(child, segs, k + 1, v);
                    let prev = result.0;
                    let nc = result.1;
                    pairs.insert(j, (key_string, nc));
                    proof {
                        let nd = doc_set(pv[j as int].1, rest.skip(1), v@)->0;
                        assert(nc@ == nd);
                        assert forall|t: int| 0 <= t < pairs@.len() implies #[trigger] pairs@[t]
                            == (if t == j as int {
                            (old_pairs[j as int].0, nc)
                        } else {
                            old_pairs[t]
                        }) by {}
                        lemma_doc_pairs_view(pairs@);
                        assert forall|t: int| 0 <= t < pairs@.len() implies doc_pairs_view(
                            pairs@,
                        )[t] == pv.update(j as int, (pv[j as int].0, nd))[t] by {
                            assert(doc_pairs_view(pairs@)[t] == (pairs@[t].0@, pairs@[t].1@));
                            if t != j as int {
                                assert(pairs@[t] == old_pairs[t]);
                                assert(pv[t] == (old_pairs[t].0@, old_pairs[t].1@));
                            }
                        }
                        assert(doc_pairs_view(pairs@) =~= pv.update(j as int, (pv[j as int].0, nd)));
                        assert(lookup(pv, key) == Some(pv[j as int].1));
                        assert(doc_get(DocView::Obj(pv), rest) == doc_get(
                            pv[j as int].1,
                            rest.skip(1),
                        ));
                    }
                    return (prev, DocValue::Obj(pairs));
                }
                j = j + 1;
            }
            proof {
                assert(false);
            }
            (DocValue::Null, DocValue::Obj(pairs))
        },
        DocValue::Arr(mut items) => {
            let ghost iv = doc_seq_view(items@);
            proof {
                lemma_doc_seq_view(items@);
            }
            match parse_index_exec(&segs[k]) {
                Some(i) => {
                    proof {
                        assert(items.len() == items@.len());
                        assert(items@.len() <= usize::MAX);
                        if index_of_segment(key) is Some {
                            lemma_numeral_nonneg(key);
                        }
                        assert(index_of_segment(key) == Some(i as int));
                        assert(0 <= i < items@.len());
                    }
                    let ghost old_items = items@;
                    let child = items.remove(i);
                    proof {
                        assert(child == old_items[i as int]);
                        assert(doc_set(child@, rest.skip(1), v@) is Some);
                    }
                    let result = set_at(child, segs, k + 1, v);
                    let prev = result.0;
                    let nc = result.1;
                    items.insert(i, nc);
                    proof {
                        let nd = doc_set(iv[i as int], rest.skip(1), v@)->0;
                        assert(nc@ == nd);
                        assert forall|t: int| 0 <= t < items@.len() implies #[trigger] items@[t]
                            == (if t == i as int {
                            nc
                        } else {
                            old_items[t]
                        }) by {}
                        lemma_doc_seq_view(items@);
                        assert forall|t: int| 0 <= t < items@.len() implies doc_seq_view(items@)[t]
                            == iv.update(i as int, nd)[t] by {
                            assert(doc_seq_view(items@)[t] == items@[t]@);
                            if t != i as int {
                                assert(items@[t] == old_items[t]);
                                assert(iv[t] == old_items[t]@);
                            }
                        }
                        assert(doc_seq_view(items@) =~= iv.update(i as int, nd));
                        assert(doc_get(DocView::Arr(iv), rest) == doc_get(
                            iv[i as int],
                            rest.skip(1),
                        ));
                    }
                    (prev, DocValue::Arr(items))
                },
                None => {
                    proof {
                        assert(items.len() == items@.len());
                        assert(items@.len() <= usize::MAX);
                        assert(false);
                    }
                    (DocValue::Null, DocValue::Arr(items))
                },
            }
        },
        _ => {
            proof {
                assert(false);
            }
            (DocValue::Null, v)
        },
    }
}

/// Replaces the node under `path` by `v`, whatever kind of node stands
/// there, and hands back the replaced node with the updated document; hands
/// the document back unchanged when the path is invalid or does not resolve.
pub fn pointer_replace(d: DocValue, path: &str, v: DocValue) -> (r: Result<
    (DocValue, DocValue),
    DocValue,
>)
    ensures
        match ptr_set(d@, path@, v@) {
            Some(nd) => r matches Ok(pair) && Some(pair.0@) == ptr_get(d@, path@) && pair.1@ == nd,
            None => r matches Err(x) && x@ == d@,
        },
{
    match parse_pointer_exec(path) {
        Some(segs) => {
            proof {
                assert(segs_view(segs@).skip(0) =~= segs_view(segs@));
            }
            let found = get_at(&d, &segs, 0).is_some();
            proof {
                lemma_get_set(d@, segs_view(segs@), v@);
            }
            if found {
                Ok(set_at(d, &segs, 0, v))
            } else {
                Err(d)
            }
        },
        None => Err(d),
    }
}

} // verus!
