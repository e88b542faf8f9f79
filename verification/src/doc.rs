//! Structured configuration documents: the tree that YAML and JSON data of a
//! mod is read into, the deep merge used for inheritance and overrides, and
//! key lookups.

use vstd::prelude::*;
use crate::text::str_eq;

verus! {

/// A key of a mapping: text, or another scalar kept in its written form.
#[derive(Debug)]
pub enum DocKey {
    Text(String),
    Scalar(String),
}

/// View of a key: whether it is text, and its characters.
pub open spec fn key_view(k: DocKey) -> (bool, Seq<char>) {
    match k {
        DocKey::Text(s) => (true, s@),
        DocKey::Scalar(s) => (false, s@),
    }
}

impl View for DocKey {
    type V = (bool, Seq<char>);

    open spec fn view(&self) -> (bool, Seq<char>) {
        key_view(*self)
    }
}

/// A configuration tree. Numbers keep their written form.
#[derive(Debug)]
pub enum Doc {
    Null,
    Bool(bool),
    Number(String),
    Text(String),
    List(Vec<Doc>),
    Mapping(Vec<(DocKey, Doc)>),
    Tagged(String, Box<Doc>),
}

/// The mathematical content of a [`Doc`].
pub enum DocView {
    Null,
    Bool(bool),
    Number(Seq<char>),
    Text(Seq<char>),
    List(Seq<DocView>),
    Mapping(Seq<((bool, Seq<char>), DocView)>),
    Tagged(Seq<char>, Box<DocView>),
}

/// View of a document.
pub open spec fn doc_view(d: Doc) -> DocView
    decreases d,
{
    match d {
        Doc::Null => DocView::Null,
        Doc::Bool(b) => DocView::Bool(b),
        Doc::Number(s) => DocView::Number(s@),
        Doc::Text(s) => DocView::Text(s@),
        Doc::List(v) => DocView::List(docs_view(v@)),
        Doc::Mapping(m) => DocView::Mapping(entries_view(m@)),
        Doc::Tagged(t, b) => DocView::Tagged(t@, Box::new(doc_view(*b))),
    }
}

/// Views of a sequence of documents.
pub open spec fn docs_view(s: Seq<Doc>) -> Seq<DocView>
    decreases s,
{
    if s.len() == 0 {
        Seq::empty()
    } else {
        docs_view(s.drop_last()).push(doc_view(s.last()))
    }
}

/// Views of the entries of a mapping.
pub open spec fn entries_view(s: Seq<(DocKey, Doc)>) -> Seq<((bool, Seq<char>), DocView)>
    decreases s,
{
    if s.len() == 0 {
        Seq::empty()
    } else {
        entries_view(s.drop_last()).push((key_view(s.last().0), doc_view(s.last().1)))
    }
}

impl View for Doc {
    type V = DocView;

    open spec fn view(&self) -> DocView {
        doc_view(*self)
    }
}

/// Entry views line up with the entries.
pub proof fn lemma_entries_view(s: Seq<(DocKey, Doc)>)
    ensures
        entries_view(s).len() == s.len(),
        forall|i: int| 0 <= i < s.len() ==> #[trigger] entries_view(s)[i] == (key_view(s[i].0), doc_view(s[i].1)),
    decreases s.len(),
{
    if s.len() > 0 {
        lemma_entries_view(s.drop_last());
    }
}

/// Document views line up with the documents.
pub proof fn lemma_docs_view(s: Seq<Doc>)
    ensures
        docs_view(s).len() == s.len(),
        forall|i: int| 0 <= i < s.len() ==> #[trigger] docs_view(s)[i] == doc_view(s[i]),
    decreases s.len(),
{
    if s.len() > 0 {
        lemma_docs_view(s.drop_last());
    }
}

/// `i` is the position of the first entry of `m` whose key is `k`.
pub open spec fn first_key_at(m: Seq<((bool, Seq<char>), DocView)>, k: (bool, Seq<char>), i: int) -> bool {
    &&& 0 <= i < m.len()
    &&& m[i].0 == k
    &&& forall|j: int| 0 <= j < i ==> #[trigger] m[j].0 != k
}

/// Position of the first entry of `m` whose key is `k`, if any.
pub open spec fn key_index(m: Seq<((bool, Seq<char>), DocView)>, k: (bool, Seq<char>)) -> Option<int> {
    if exists|i: int| first_key_at(m, k, i) {
        Some(choose|i: int| first_key_at(m, k, i))
    } else {
        None
    }
}

/// There is at most one first position of a key.
pub proof fn lemma_first_key_unique(m: Seq<((bool, Seq<char>), DocView)>, k: (bool, Seq<char>), i: int, j: int)
    requires
        first_key_at(m, k, i),
        first_key_at(m, k, j),
    ensures
        i == j,
{
    if i < j {
        assert(m[i].0 != k);
    } else if j < i {
        assert(m[j].0 != k);
    }
}

/// Deep merge: where both sides are mappings, every overlay entry is merged into
/// the base entry with the same key (or appended when the base has none), in
/// overlay order; otherwise the overlay wins.
pub open spec fn merge_view(base: DocView, overlay: DocView) -> DocView
    decreases overlay, 0nat,
{
    match overlay {
        DocView::Mapping(o) => match base {
            DocView::Mapping(b) => DocView::Mapping(merge_entries(b, o, o.len())),
            _ => overlay,
        },
        _ => overlay,
    }
}

/// The base entries after the first `n` overlay entries have been merged in.
pub open spec fn merge_entries(
    b: Seq<((bool, Seq<char>), DocView)>,
    o: Seq<((bool, Seq<char>), DocView)>,
    n: nat,
) -> Seq<((bool, Seq<char>), DocView)>
    decreases o, n,
{
    if n == 0 || n > o.len() {
        b
    } else {
        let acc = merge_entries(b, o, (n - 1) as nat);
        let k = o[n - 1].0;
        let v = o[n - 1].1;
        match key_index(acc, k) {
            Some(i) => acc.update(i, (acc[i].0, merge_view(acc[i].1, v))),
            None => acc.push((k, v)),
        }
    }
}

/// Entry views commute with replacing one entry.
proof fn lemma_entries_view_update(s: Seq<(DocKey, Doc)>, i: int, e: (DocKey, Doc))
    requires
        0 <= i < s.len(),
    ensures
        entries_view(s.update(i, e)) == entries_view(s).update(i, (key_view(e.0), doc_view(e.1))),
{
    lemma_entries_view(s);
    lemma_entries_view(s.update(i, e));
    assert(entries_view(s.update(i, e)) =~= entries_view(s).update(i, (key_view(e.0), doc_view(e.1))));
}

/// Entry views commute with appending an entry.
proof fn lemma_entries_view_push(s: Seq<(DocKey, Doc)>, e: (DocKey, Doc))
    ensures
        entries_view(s.push(e)) == entries_view(s).push((key_view(e.0), doc_view(e.1))),
{
    assert(s.push(e).drop_last() =~= s);
}

/// Two keys are the same.
pub fn key_eq(a: &DocKey, b: &DocKey) -> (r: bool)
    ensures
        r == (a@ == b@),
{
    match (a, b) {
        (DocKey::Text(x), DocKey::Text(y)) => str_eq(x.as_str(), y.as_str()),
        (DocKey::Scalar(x), DocKey::Scalar(y)) => str_eq(x.as_str(), y.as_str()),
        _ => false,
    }
}

/// Position of the first entry whose key is `k`.
pub fn find_key(m: &Vec<(DocKey, Doc)>, k: &DocKey) -> (r: Option<usize>)
    ensures
        r == match key_index(entries_view(m@), k@) {
            Some(i) => Some(i as usize),
            None => None::<usize>,
        },
        match r {
            Some(i) => first_key_at(entries_view(m@), k@, i as int),
            None => key_index(entries_view(m@), k@) is None,
        },
{
    let ghost mv = entries_view(m@);
    proof {
        lemma_entries_view(m@);
    }
    let mut i: usize = 0;
    while i < m.len()
        invariant
            mv == entries_view(m@),
            mv.len() == m@.len(),
            forall|t: int| 0 <= t < m@.len() ==> #[trigger] mv[t] == (key_view(m@[t].0), doc_view(m@[t].1)),
            i <= m@.len(),
            forall|j: int| 0 <= j < i ==> #[trigger] mv[j].0 != k@,
        decreases m.len() - i,
    {
        if key_eq(&m[i].0, k) {
            proof {
                assert(first_key_at(mv, k@, i as int));
                let w = choose|w: int| first_key_at(mv, k@, w);
                lemma_first_key_unique(mv, k@, i as int, w);
            }
            return Some(i);
        }
        i = i + 1;
    }
    proof {
        if exists|w: int| first_key_at(mv, k@, w) {
            let w = choose|w: int| first_key_at(mv, k@, w);
            assert(mv[w].0 != k@);
        }
    }
    None
}

/// Deep merge of `overlay` into `base` (see [`merge_view`]).
pub fn merge_docs(base: Doc, overlay: Doc) -> (r: Doc)
    ensures
        r@ == merge_view(base@, overlay@),
    decreases overlay,
{
    let ghost whole = overlay;
    match overlay {
        Doc::Mapping(o) => match base {
            Doc::Mapping(b) => {
                let ghost oseq = o@;
                let ghost ovec = o;
                let ghost bv = entries_view(b@);
                let ghost ov = entries_view(oseq);
                proof {
                    lemma_entries_view(oseq);
                }
                let n = o.len();
                let mut acc = b;
                let mut rest = o;
                let mut i: usize = 0;
                while i < n
                    invariant
                        whole == Doc::Mapping(ovec),
                        whole == overlay,
                        ovec@ == oseq,
                        n == oseq.len(),
                        ov == entries_view(oseq),
                        ov.len() == oseq.len(),
                        forall|t: int| 0 <= t < oseq.len() ==> #[trigger] ov[t] == (key_view(oseq[t].0), doc_view(oseq[t].1)),
                        i <= n,
                        rest@ == oseq.skip(i as int),
                        entries_view(acc@) == merge_entries(bv, ov, i as nat),
                    decreases n - i,
                {
                    assert(rest@[0] == oseq[i as int]);
                    let (k, v) = rest.remove(0);
                    assert(rest@ =~= oseq.skip(i + 1));
                    let ghost before = acc@;
                    match find_key(&acc, &k) {
                        Some(j) => {
                            proof {
                                lemma_entries_view(before);
                            }
                            let e = acc.remove(j);
                            proof {
                                assert(v == ovec@[i as int].1);
                                assert(whole->Mapping_0 == ovec);
                                assert(decreases_to!(whole => whole->Mapping_0));
                                assert(decreases_to!(ovec => ovec@));
                                assert(decreases_to!(ovec@ => ovec@[i as int]));
                                assert(decreases_to!(ovec@[i as int] => ovec@[i as int].1));
                                assert(decreases_to!(whole => v));
                            }
                            let m = merge_docs(e.1, v);
                            acc.insert(j, (e.0, m));
                            proof {
                                assert(acc@ =~= before.update(j as int, (e.0, m)));
                                lemma_entries_view_update(before, j as int, (e.0, m));
                                lemma_entries_view(before);
                                let w = choose|w: int| first_key_at(entries_view(before), k@, w);
                                lemma_first_key_unique(entries_view(before), k@, j as int, w);
                            }
                        },
                        None => {
                            acc.push((k, v));
                            proof {
                                lemma_entries_view_push(before, (k, v));
                            }
                        },
                    }
                    i = i + 1;
                }
                Doc::Mapping(acc)
            },
            _ => Doc::Mapping(o),
        },
        other => other,
    }
}


/// A copy of a key.
pub fn copy_key(k: &DocKey) -> (r: DocKey)
    ensures
        r@ == k@,
{
    match k {
        DocKey::Text(s) => DocKey::Text(s.clone()),
        DocKey::Scalar(s) => DocKey::Scalar(s.clone()),
    }
}

/// A deep copy of a document.
pub fn copy_doc(d: &Doc) -> (r: Doc)
    ensures
        r@ == d@,
    decreases d,
{
    match d {
        Doc::Null => Doc::Null,
        Doc::Bool(b) => Doc::Bool(*b),
        Doc::Number(s) => Doc::Number(s.clone()),
        Doc::Text(s) => Doc::Text(s.clone()),
        Doc::List(v) => {
            let mut out: Vec<Doc> = Vec::new();
            let mut i: usize = 0;
            proof {
                lemma_docs_view(v@);
            }
            while i < v.len()
                invariant
                    i <= v@.len(),
                    *d == Doc::List(*v),
                    docs_view(v@).len() == v@.len(),
                    forall|t: int| 0 <= t < v@.len() ==> #[trigger] docs_view(v@)[t] == doc_view(v@[t]),
                    docs_view(out@) == docs_view(v@).subrange(0, i as int),
                decreases v.len() - i,
            {
                proof {
                    assert(decreases_to!(d => d->List_0));
                    assert(decreases_to!(d->List_0 => d->List_0@));
                    assert(decreases_to!(d->List_0@ => d->List_0@[i as int]));
                }
                let c = copy_doc(&v[i]);
                let ghost before = out@;
                out.push(c);
                proof {
                    assert(out@.drop_last() =~= before);
                    assert(docs_view(v@).subrange(0, i + 1) =~= docs_view(v@).subrange(0, i as int).push(doc_view(v@[i as int])));
                }
                i = i + 1;
            }
            assert(docs_view(v@).subrange(0, v@.len() as int) =~= docs_view(v@));
            Doc::List(out)
        },
        Doc::Mapping(m) => {
            let mut out: Vec<(DocKey, Doc)> = Vec::new();
            let mut i: usize = 0;
            proof {
                lemma_entries_view(m@);
            }
            while i < m.len()
                invariant
                    i <= m@.len(),
                    *d == Doc::Mapping(*m),
                    entries_view(m@).len() == m@.len(),
                    forall|t: int| 0 <= t < m@.len() ==> #[trigger] entries_view(m@)[t] == (key_view(m@[t].0), doc_view(m@[t].1)),
                    entries_view(out@) == entries_view(m@).subrange(0, i as int),
                decreases m.len() - i,
            {
                proof {
                    assert(decreases_to!(d => d->Mapping_0));
                    assert(decreases_to!(d->Mapping_0 => d->Mapping_0@));
                    assert(decreases_to!(d->Mapping_0@ => d->Mapping_0@[i as int]));
                    assert(decreases_to!(d->Mapping_0@[i as int] => d->Mapping_0@[i as int].1));
                }
                let k = copy_key(&m[i].0);
                let c = copy_doc(&m[i].1);
                let ghost before = out@;
                out.push((k, c));
                proof {
                    lemma_entries_view_push(before, (k, c));
                    assert(entries_view(m@).subrange(0, i + 1) =~= entries_view(m@).subrange(0, i as int).push(entries_view(m@)[i as int]));
                }
                i = i + 1;
            }
            assert(entries_view(m@).subrange(0, m@.len() as int) =~= entries_view(m@));
            Doc::Mapping(out)
        },
        Doc::Tagged(t, b) => {
            proof {
                assert(decreases_to!(d => d->Tagged_1));
            }
            let inner = copy_doc(&**b);
            Doc::Tagged(t.clone(), Box::new(inner))
        },
    }
}

/// The document under any tags.
pub open spec fn untag_view(d: DocView) -> DocView
    decreases d,
{
    match d {
        DocView::Tagged(_, b) => untag_view(*b),
        _ => d,
    }
}

/// The text stored under the text key `key` of a mapping (looking through
/// tags), if there is such an entry and its value is text.
pub open spec fn text_at(d: DocView, key: Seq<char>) -> Option<Seq<char>> {
    match untag_view(d) {
        DocView::Mapping(m) => match key_index(m, (true, key)) {
            Some(i) => match untag_view(m[i].1) {
                DocView::Text(s) => Some(s),
                _ => None,
            },
            None => None,
        },
        _ => None,
    }
}

/// The document under any tags.
fn untagged(d: &Doc) -> (r: &Doc)
    ensures
        r@ == untag_view(d@),
    decreases d,
{
    match d {
        Doc::Tagged(_, b) => {
            proof {
                assert(decreases_to!(d => d->Tagged_1));
            }
            untagged(&**b)
        },
        _ => d,
    }
}

/// The text under the text key `key` of a mapping (see [`text_at`]).
pub fn get_text(d: &Doc, key: &str) -> (r: Option<String>)
    ensures
        opt_text(r) == text_at(d@, key@),
{
    let u = untagged(d);
    match u {
        Doc::Mapping(m) => {
            let k = DocKey::Text(key.to_string());
            match find_key(m, &k) {
                Some(i) => {
                    proof {
                        lemma_entries_view(m@);
                    }
                    match untagged(&m[i].1) {
                        Doc::Text(s) => Some(s.clone()),
                        _ => None,
                    }
                },
                None => None,
            }
        },
        _ => None,
    }
}

/// View of an optional string.
pub open spec fn opt_text(o: Option<String>) -> Option<Seq<char>> {
    match o {
        Some(s) => Some(s@),
        None => None,
    }
}

/// A mapping without the entry whose text key is `key`: the last entry takes
/// its place. Other documents are left as they are.
pub open spec fn without_key(d: DocView, key: Seq<char>) -> DocView {
    match d {
        DocView::Mapping(m) => match key_index(m, (true, key)) {
            Some(i) => DocView::Mapping(m.update(i, m.last()).drop_last()),
            None => d,
        },
        _ => d,
    }
}

/// Removes the entry with text key `key` from a mapping (see [`without_key`]).
pub fn remove_key(d: Doc, key: &str) -> (r: Doc)
    ensures
        r@ == without_key(d@, key@),
{
    match d {
        Doc::Mapping(mut m) => {
            let k = DocKey::Text(key.to_string());
            match find_key(&m, &k) {
                Some(i) => {
                    let ghost before = m@;
                    proof {
                        lemma_entries_view(before);
                    }
                    let _ = m.swap_remove(i);
                    proof {
                        lemma_entries_view(m@);
                        assert(entries_view(m@) =~= entries_view(before).update(i as int, entries_view(before).last()).drop_last());
                    }
                    Doc::Mapping(m)
                },
                None => Doc::Mapping(m),
            }
        },
        other => other,
    }
}


/// The overlay fields that take part in a merge: those whose name is not in
/// `skip` and that have a document value, in order, under text keys.
pub open spec fn kept_fields(overlay: Seq<(Seq<char>, Option<DocView>)>, skip: Seq<Seq<char>>) -> Seq<((bool, Seq<char>), DocView)>
    decreases overlay.len(),
{
    if overlay.len() == 0 {
        Seq::empty()
    } else {
        let rest = kept_fields(overlay.drop_last(), skip);
        let (k, v) = overlay.last();
        if skip.contains(k) || v is None {
            rest
        } else {
            rest.push(((true, k), v.unwrap()))
        }
    }
}

/// Views of named overlay fields.
pub open spec fn fields_view(s: Seq<(String, Option<Doc>)>) -> Seq<(Seq<char>, Option<DocView>)> {
    s.map_values(|e: (String, Option<Doc>)| (e.0@, match e.1 { Some(d) => Some(doc_view(d)), None => None }))
}

fn name_in(names: &Vec<String>, k: &str) -> (r: bool)
    ensures
        r == names@.map_values(|x: String| x@).contains(k@),
{
    let ghost nv = names@.map_values(|x: String| x@);
    let mut i: usize = 0;
    while i < names.len()
        invariant
            nv == names@.map_values(|x: String| x@),
            i <= names@.len(),
            forall|j: int| 0 <= j < i ==> names@[j]@ != k@,
        decreases names.len() - i,
    {
        if str_eq(names[i].as_str(), k) {
            assert(nv[i as int] == k@);
            return true;
        }
        i = i + 1;
    }
    proof {
        if nv.contains(k@) {
            let j = choose|j: int| 0 <= j < nv.len() && nv[j] == k@;
            assert(names@[j]@ == k@);
        }
    }
    false
}

/// Merges named fields into `base` (see [`merge_view`]), leaving out the
/// fields named in `skip` and those without a document value.
pub fn merge_fields(base: Doc, overlay: Vec<(String, Option<Doc>)>, skip: &Vec<String>) -> (r: Doc)
    ensures
        r@ == merge_view(base@, DocView::Mapping(kept_fields(fields_view(overlay@), skip@.map_values(|x: String| x@)))),
{
    let ghost fv = fields_view(overlay@);
    let ghost sv = skip@.map_values(|x: String| x@);
    let n = overlay.len();
    let mut rest = overlay;
    let ghost all = rest@;
    let mut kept: Vec<(DocKey, Doc)> = Vec::new();
    let mut i: usize = 0;
    proof {
        assert(entries_view(kept@) =~= Seq::empty());
    }
    while i < n
        invariant
            n == all.len(),
            fv == fields_view(all),
            sv == skip@.map_values(|x: String| x@),
            i <= n,
            rest@ == all.skip(i as int),
            entries_view(kept@) == kept_fields(fv.subrange(0, i as int), sv),
        decreases n - i,
    {
        let (k, v) = rest.remove(0);
        proof {
            assert((k, v) == all[i as int]);
            assert(rest@ =~= all.skip(i + 1));
            assert(fv.subrange(0, i + 1).drop_last() =~= fv.subrange(0, i as int));
            assert(fv.subrange(0, i + 1).last() == fv[i as int]);
        }
        let skipped = name_in(skip, k.as_str());
        match v {
            Some(d) => {
                if !skipped {
                    let ghost before = kept@;
                    kept.push((DocKey::Text(k), d));
                    proof {
                        lemma_entries_view_push(before, (DocKey::Text(k), d));
                    }
                }
            },
            None => {},
        }
        i = i + 1;
    }
    assert(fv.subrange(0, n as int) =~= fv);
    proof {
        assert(doc_view(Doc::Mapping(kept)) == DocView::Mapping(entries_view(kept@)));
    }
    merge_docs(base, Doc::Mapping(kept))
}


/// `s` with every `-` replaced by `_`.
pub open spec fn underscored(s: Seq<char>) -> Seq<char> {
    s.map_values(|c: char| if c == '-' { '_' } else { c })
}

/// A document with `-` replaced by `_` in every mapping key, at every depth.
pub open spec fn canonical_view(d: DocView) -> DocView
    decreases d, 0nat,
{
    match d {
        DocView::List(items) => DocView::List(canonical_items(items, items.len())),
        DocView::Mapping(m) => DocView::Mapping(canonical_entries(m, m.len())),
        _ => d,
    }
}

/// The first `n` items, canonicalized.
pub open spec fn canonical_items(items: Seq<DocView>, n: nat) -> Seq<DocView>
    decreases items, n,
{
    if n == 0 || n > items.len() {
        Seq::empty()
    } else {
        canonical_items(items, (n - 1) as nat).push(canonical_view(items[n - 1]))
    }
}

/// The first `n` entries, with canonical keys and values.
pub open spec fn canonical_entries(m: Seq<((bool, Seq<char>), DocView)>, n: nat) -> Seq<((bool, Seq<char>), DocView)>
    decreases m, n,
{
    if n == 0 || n > m.len() {
        Seq::empty()
    } else {
        let (k, v) = m[n - 1];
        canonical_entries(m, (n - 1) as nat).push(((k.0, underscored(k.1)), canonical_view(v)))
    }
}

fn underscore_text(s: &str) -> (r: String)
    ensures
        r@ == underscored(s@),
{
    let n = s.unicode_len();
    let mut out = String::new();
    let mut i: usize = 0;
    while i < n
        invariant
            n == s@.len(),
            i <= n,
            out@ == underscored(s@.subrange(0, i as int)),
        decreases n - i,
    {
        let c = s.get_char(i);
        crate::text::push_char(&mut out, if c == '-' { '_' } else { c });
        proof {
            assert(underscored(s@.subrange(0, i + 1)) =~= underscored(s@.subrange(0, i as int)).push(
                if c == '-' { '_' } else { c },
            ));
        }
        i = i + 1;
    }
    assert(s@.subrange(0, n as int) =~= s@);
    out
}

/// Replaces `-` by `_` in every mapping key of `d`, at every depth (see [`canonical_view`]).
pub fn canonical_keys(d: Doc) -> (r: Doc)
    ensures
        r@ == canonical_view(d@),
    decreases d,
{
    let ghost whole = d;
    match d {
        Doc::List(items) => {
            let ghost seq0 = items@;
            let ghost vec0 = items;
            proof {
                lemma_docs_view(seq0);
            }
            let n = items.len();
            let mut rest = items;
            let mut out: Vec<Doc> = Vec::new();
            let mut i: usize = 0;
            proof {
                assert(docs_view(out@) =~= Seq::<DocView>::empty());
            }
            while i < n
                invariant
                    whole == d,
                    whole == Doc::List(vec0),
                    vec0@ == seq0,
                    n == seq0.len(),
                    docs_view(seq0).len() == seq0.len(),
                    forall|t: int| 0 <= t < seq0.len() ==> #[trigger] docs_view(seq0)[t] == doc_view(seq0[t]),
                    i <= n,
                    rest@ == seq0.skip(i as int),
                    docs_view(out@) == canonical_items(docs_view(seq0), i as nat),
                decreases n - i,
            {
                assert(rest@[0] == seq0[i as int]);
                let item = rest.remove(0);
                assert(rest@ =~= seq0.skip(i + 1));
                proof {
                    assert(whole->List_0 == vec0);
                    assert(decreases_to!(whole => whole->List_0));
                    assert(decreases_to!(vec0 => vec0@));
                    assert(decreases_to!(vec0@ => vec0@[i as int]));
                }
                let c = canonical_keys(item);
                let ghost before = out@;
                out.push(c);
                proof {
                    assert(out@.drop_last() =~= before);
                }
                i = i + 1;
            }
            Doc::List(out)
        },
        Doc::Mapping(m) => {
            let ghost seq0 = m@;
            let ghost vec0 = m;
            proof {
                lemma_entries_view(seq0);
            }
            let n = m.len();
            let mut rest = m;
            let mut out: Vec<(DocKey, Doc)> = Vec::new();
            let mut i: usize = 0;
            proof {
                assert(entries_view(out@) =~= Seq::empty());
            }
            while i < n
                invariant
                    whole == d,
                    whole == Doc::Mapping(vec0),
                    vec0@ == seq0,
                    n == seq0.len(),
                    entries_view(seq0).len() == seq0.len(),
                    forall|t: int| 0 <= t < seq0.len() ==> #[trigger] entries_view(seq0)[t] == (key_view(seq0[t].0), doc_view(seq0[t].1)),
                    i <= n,
                    rest@ == seq0.skip(i as int),
                    entries_view(out@) == canonical_entries(entries_view(seq0), i as nat),
                decreases n - i,
            {
                assert(rest@[0] == seq0[i as int]);
                let (k, v) = rest.remove(0);
                assert(rest@ =~= seq0.skip(i + 1));
                proof {
                    assert(v == vec0@[i as int].1);
                    assert(whole->Mapping_0 == vec0);
                    assert(decreases_to!(whole => whole->Mapping_0));
                    assert(decreases_to!(vec0 => vec0@));
                    assert(decreases_to!(vec0@ => vec0@[i as int]));
                    assert(decreases_to!(vec0@[i as int] => vec0@[i as int].1));
                }
                let key = match k {
                    DocKey::Text(s) => DocKey::Text(underscore_text(s.as_str())),
                    DocKey::Scalar(s) => DocKey::Scalar(underscore_text(s.as_str())),
                };
                let c = canonical_keys(v);
                let ghost before = out@;
                out.push((key, c));
                proof {
                    lemma_entries_view_push(before, (key, c));
                }
                i = i + 1;
            }
            Doc::Mapping(out)
        },
        other => other,
    }
}

} // verus!
