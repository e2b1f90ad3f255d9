//! Label and annotation mappings, and the merge of manifest metadata with
//! the entries given on the command line.
use vstd::prelude::*;
use crate::labels::{
    annotation_from_str, labels_from_str, pairs_of, parse_annotation, parse_labels, KeyValue,
    ParseError,
};
use crate::text::views_of;
use crate::types::Error;

verus! {

/// Whether no key occurs twice.
pub open spec fn keys_unique(s: Seq<(Seq<char>, Seq<char>)>) -> bool {
    forall|i: int, j: int| 0 <= i < s.len() && 0 <= j < s.len() && #[trigger] s[i].0 == #[trigger] s[j].0 ==> i == j
}

/// `s` with `kv` written in: in place of the entry with the same key, or
/// appended where there is none.
pub open spec fn upserted(s: Seq<(Seq<char>, Seq<char>)>, kv: (Seq<char>, Seq<char>)) -> Seq<
    (Seq<char>, Seq<char>),
> {
    if exists|i: int| 0 <= i < s.len() && #[trigger] s[i].0 == kv.0 {
        s.update(choose|i: int| 0 <= i < s.len() && #[trigger] s[i].0 == kv.0, kv)
    } else {
        s.push(kv)
    }
}

/// `ps` written into `s` one after the other.
pub open spec fn upserted_all(
    s: Seq<(Seq<char>, Seq<char>)>,
    ps: Seq<(Seq<char>, Seq<char>)>,
) -> Seq<(Seq<char>, Seq<char>)>
    decreases ps.len(),
{
    if ps.len() == 0 {
        s
    } else {
        upserted(upserted_all(s, ps.drop_last()), ps.last())
    }
}

/// The mapping that a list of pairs stands for, a later pair winning over an
/// earlier one with the same key.
pub open spec fn pairs_map(s: Seq<(Seq<char>, Seq<char>)>) -> Map<Seq<char>, Seq<char>>
    decreases s.len(),
{
    if s.len() == 0 {
        Map::empty()
    } else {
        pairs_map(s.drop_last()).insert(s.last().0, s.last().1)
    }
}

/// An ordered mapping from keys to values; each key occurs once, in the order
/// in which it was first written.
#[derive(Debug)]
pub struct KvMap {
    entries: Vec<KeyValue>,
}

pub type LabelMap = KvMap;

pub type AnnotationMap = KvMap;

impl View for KvMap {
    type V = Seq<(Seq<char>, Seq<char>)>;

    closed spec fn view(&self) -> Seq<(Seq<char>, Seq<char>)> {
        pairs_of(self.entries@)
    }
}

impl KvMap {
    pub open spec fn wf(&self) -> bool {
        keys_unique(self@)
    }

    /// The mapping as keys to values.
    pub open spec fn as_map(&self) -> Map<Seq<char>, Seq<char>> {
        pairs_map(self@)
    }

    pub fn new() -> (r: KvMap)
        ensures
            r.wf(),
            r@ == Seq::<(Seq<char>, Seq<char>)>::empty(),
    {
        let r = KvMap { entries: Vec::new() };
        proof {
            assert(r@ =~= Seq::<(Seq<char>, Seq<char>)>::empty());
        }
        r
    }

    pub fn len(&self) -> (r: usize)
        ensures
            r == self@.len(),
    {
        self.entries.len()
    }

    /// Writes `key` with `value`: an existing entry for `key` keeps its place
    /// and takes the new value; otherwise the pair is appended.
    pub fn insert(&mut self, key: String, value: String)
        requires
            old(self).wf(),
        ensures
            final(self).wf(),
            final(self)@ == upserted(old(self)@, (key@, value@)),
    {
        let ghost kv = (key@, value@);
        let n = self.entries.len();
        let mut i: usize = 0;
        while i < n
            invariant
                n == self.entries.len(),
                n == self@.len(),
                i <= n,
                self@ == old(self)@,
                kv == (key@, value@),
                keys_unique(self@),
                forall|j: int| 0 <= j < i ==> #[trigger] self@[j].0 != kv.0,
            decreases n - i,
        {
            proof {
                assert(self@[i as int] == self.entries@[i as int]@);
            }
            if self.entries[i].key == key {
                proof {
                    assert(self@[i as int].0 == kv.0);
                    assert(exists|j: int| 0 <= j < self@.len() && #[trigger] self@[j].0 == kv.0);
                    let c = choose|j: int| 0 <= j < self@.len() && #[trigger] self@[j].0 == kv.0;
                    assert(c == i);
                }
                let ghost prev = self.entries@;
                self.entries.set(i, KeyValue { key, value });
                proof {
                    assert(self@ =~= pairs_of(prev).update(i as int, kv));
                    assert forall|a: int, b: int|
                        0 <= a < self@.len() && 0 <= b < self@.len() && #[trigger] self@[a].0
                            == #[trigger] self@[b].0 implies a == b by {
                        assert(pairs_of(prev)[a].0 == self@[a].0 || a == i);
                        assert(pairs_of(prev)[b].0 == self@[b].0 || b == i);
                    }
                }
                return;
            }
            i = i + 1;
        }
        let ghost prev = self.entries@;
        self.entries.push(KeyValue { key, value });
        proof {
            assert(self@ =~= pairs_of(prev).push(kv));
            assert(!exists|j: int| 0 <= j < pairs_of(prev).len() && #[trigger] pairs_of(prev)[j].0 == kv.0);
        }
    }

    /// The entries in order, consuming the mapping.
    pub fn into_list(self) -> (r: Vec<KeyValue>)
        ensures
            pairs_of(r@) == self@,
    {
        self.entries
    }
}

/// Metadata of a namespace: an optional name, labels and annotations.
#[derive(Debug)]
pub struct Metadata {
    pub name: Option<String>,
    pub labels: LabelMap,
    pub annotations: AnnotationMap,
}

impl Metadata {
    pub open spec fn wf(&self) -> bool {
        self.labels.wf() && self.annotations.wf()
    }

    /// No name, no labels, no annotations.
    pub fn empty() -> (r: Metadata)
        ensures
            r.wf(),
            r.name is None,
            r.labels@ == Seq::<(Seq<char>, Seq<char>)>::empty(),
            r.annotations@ == Seq::<(Seq<char>, Seq<char>)>::empty(),
    {
        Metadata { name: None, labels: KvMap::new(), annotations: KvMap::new() }
    }
}

impl Default for Metadata {
    fn default() -> (r: Metadata)
        ensures
            r.wf(),
            r.name is None,
            r.labels@ == Seq::<(Seq<char>, Seq<char>)>::empty(),
            r.annotations@ == Seq::<(Seq<char>, Seq<char>)>::empty(),
    {
        Metadata::empty()
    }
}

/// Whether `e` reports a malformed value `raw` of option `option` with
/// `detail`.
pub open spec fn is_option_error(e: Error, option: Seq<char>, raw: Seq<char>, detail: Seq<char>) -> bool {
    match e {
        Error::OptionValue(o, r, d) => o@ == option && r@ == raw && d@ == detail,
        _ => false,
    }
}

/// The detail reported for a label token that does not parse.
pub open spec fn label_error_detail(tok: Seq<char>) -> Seq<char> {
    match parse_labels(tok) {
        Err((line, reason)) => "\n"@ + ParseError::message_of(line + 1, reason),
        Ok(_) => Seq::empty(),
    }
}

/// The detail reported for an annotation token that does not parse.
pub open spec fn annotation_error_detail(tok: Seq<char>) -> Seq<char> {
    match parse_annotation(tok) {
        Err(reason) => "\n"@ + ParseError::message_of(1, reason),
        Ok(_) => Seq::empty(),
    }
}

/// The label tokens `toks` written in order into `s`; on failure the index
/// of the first token that does not parse.
pub open spec fn merge_label_tokens(s: Seq<(Seq<char>, Seq<char>)>, toks: Seq<Seq<char>>) -> Result<
    Seq<(Seq<char>, Seq<char>)>,
    nat,
>
    decreases toks.len(),
{
    if toks.len() == 0 {
        Ok(s)
    } else {
        match merge_label_tokens(s, toks.drop_last()) {
            Err(i) => Err(i),
            Ok(m) => match parse_labels(toks.last()) {
                Err(_) => Err((toks.len() - 1) as nat),
                Ok(ps) => Ok(upserted_all(m, ps)),
            },
        }
    }
}

/// The annotation tokens `toks` written in order into `s`; on failure the
/// index of the first token that does not parse.
pub open spec fn merge_annotation_tokens(
    s: Seq<(Seq<char>, Seq<char>)>,
    toks: Seq<Seq<char>>,
) -> Result<Seq<(Seq<char>, Seq<char>)>, nat>
    decreases toks.len(),
{
    if toks.len() == 0 {
        Ok(s)
    } else {
        match merge_annotation_tokens(s, toks.drop_last()) {
            Err(i) => Err(i),
            Ok(m) => match parse_annotation(toks.last()) {
                Err(_) => Err((toks.len() - 1) as nat),
                Ok(p) => Ok(upserted(m, p)),
            },
        }
    }
}

proof fn lemma_merge_err_prefix(
    s: Seq<(Seq<char>, Seq<char>)>,
    toks: Seq<Seq<char>>,
    k: int,
    labels: bool,
)
    requires
        0 <= k <= toks.len(),
        labels ==> merge_label_tokens(s, toks.take(k)) is Err,
        !labels ==> merge_annotation_tokens(s, toks.take(k)) is Err,
    ensures
        labels ==> merge_label_tokens(s, toks) == merge_label_tokens(s, toks.take(k)),
        !labels ==> merge_annotation_tokens(s, toks) == merge_annotation_tokens(s, toks.take(k)),
    decreases toks.len() - k,
{
    if k < toks.len() {
        assert(toks.take(k + 1).drop_last() =~= toks.take(k));
        lemma_merge_err_prefix(s, toks, k + 1, labels);
    } else {
        assert(toks.take(k) =~= toks);
    }
}

fn option_error(option: &str, raw: &str, detail: String) -> (e: Error)
    ensures
        is_option_error(e, option@, raw@, "\n"@ + detail@),
{
    let mut d = String::from_str("\n");
    d.append(detail.as_str());
    Error::OptionValue(option.to_owned(), raw.to_owned(), d)
}

/// Parses each label token in order and writes its pairs into `labels`, a
/// token's pairs overriding entries with the same key. Stops at the first
/// token that does not parse.
pub fn match_labels(label_strs: &Vec<String>, labels: &mut LabelMap) -> (r: Result<(), Error>)
    requires
        old(labels).wf(),
    ensures
        final(labels).wf(),
        match r {
            Ok(()) => merge_label_tokens(old(labels)@, views_of(label_strs@)) == Ok::<_, nat>(
                final(labels)@,
            ),
            Err(e) => exists|i: nat|
                {
                    &&& i < label_strs@.len()
                    &&& merge_label_tokens(old(labels)@, views_of(label_strs@)) == Err::<
                        Seq<(Seq<char>, Seq<char>)>,
                        _,
                    >(i)
                    &&& is_option_error(e, "labels"@, label_strs@[i as int]@, label_error_detail(label_strs@[i as int]@))
                    &&& merge_label_tokens(old(labels)@, views_of(label_strs@).take(i as int)) == Ok::<_, nat>(
                        final(labels)@,
                    )
                },
        },
{
    let ghost toks = views_of(label_strs@);
    let ghost m0 = labels@;
    let mut t: usize = 0;
    proof {
        assert(toks.take(0) =~= Seq::<Seq<char>>::empty());
    }
    while t < label_strs.len()
        invariant
            toks == views_of(label_strs@),
            m0 == old(labels)@,
            t <= label_strs.len(),
            labels.wf(),
            merge_label_tokens(m0, toks.take(t as int)) == Ok::<_, nat>(labels@),
        decreases label_strs.len() - t,
    {
        let tok = label_strs[t].as_str();
        proof {
            assert(toks.take(t as int + 1).drop_last() =~= toks.take(t as int));
            assert(toks.take(t as int + 1).last() == tok@);
        }
        match labels_from_str(tok) {
            Err(pe) => {
                let e = option_error("labels", tok, pe.message());
                proof {
                    lemma_merge_err_prefix(m0, toks, t as int + 1, true);
                    assert(merge_label_tokens(m0, toks) == Err::<Seq<(Seq<char>, Seq<char>)>, _>(t as nat));
                }
                return Err(e);
            },
            Ok(pairs) => {
                let ghost ps = pairs_of(pairs@);
                let ghost before = labels@;
                let mut k: usize = 0;
                proof {
                    assert(ps.take(0) =~= Seq::<(Seq<char>, Seq<char>)>::empty());
                }
                while k < pairs.len()
                    invariant
                        ps == pairs_of(pairs@),
                        k <= pairs.len(),
                        labels.wf(),
                        labels@ == upserted_all(before, ps.take(k as int)),
                    decreases pairs.len() - k,
                {
                    proof {
                        assert(ps.take(k as int + 1).drop_last() =~= ps.take(k as int));
                        assert(ps.take(k as int + 1).last() == pairs@[k as int]@);
                    }
                    labels.insert(pairs[k].key.clone(), pairs[k].value.clone());
                    k = k + 1;
                }
                proof {
                    assert(ps.take(pairs.len() as int) =~= ps);
                }
            },
        }
        t = t + 1;
    }
    proof {
        assert(toks.take(label_strs.len() as int) =~= toks);
    }
    Ok(())
}

/// Parses each annotation token in order and writes its pair into
/// `annotations`, overriding an entry with the same key. Stops at the first
/// token that does not parse.
pub fn match_annotations(anno_strs: &Vec<String>, annotations: &mut AnnotationMap) -> (r: Result<
    (),
    Error,
>)
    requires
        old(annotations).wf(),
    ensures
        final(annotations).wf(),
        match r {
            Ok(()) => merge_annotation_tokens(old(annotations)@, views_of(anno_strs@)) == Ok::<_, nat>(
                final(annotations)@,
            ),
            Err(e) => exists|i: nat|
                {
                    &&& i < anno_strs@.len()
                    &&& merge_annotation_tokens(old(annotations)@, views_of(anno_strs@)) == Err::<
                        Seq<(Seq<char>, Seq<char>)>,
                        _,
                    >(i)
                    &&& is_option_error(e, "annotation"@, anno_strs@[i as int]@, annotation_error_detail(anno_strs@[i as int]@))
                    &&& merge_annotation_tokens(old(annotations)@, views_of(anno_strs@).take(i as int)) == Ok::<_, nat>(
                        final(annotations)@,
                    )
                },
        },
{
    let ghost toks = views_of(anno_strs@);
    let ghost m0 = annotations@;
    let mut t: usize = 0;
    proof {
        assert(toks.take(0) =~= Seq::<Seq<char>>::empty());
    }
    while t < anno_strs.len()
        invariant
            toks == views_of(anno_strs@),
            m0 == old(annotations)@,
            t <= anno_strs.len(),
            annotations.wf(),
            merge_annotation_tokens(m0, toks.take(t as int)) == Ok::<_, nat>(annotations@),
        decreases anno_strs.len() - t,
    {
        let tok = anno_strs[t].as_str();
        proof {
            assert(toks.take(t as int + 1).drop_last() =~= toks.take(t as int));
            assert(toks.take(t as int + 1).last() == tok@);
        }
        match annotation_from_str(tok) {
            Err(pe) => {
                let e = option_error("annotation", tok, pe.message());
                proof {
                    lemma_merge_err_prefix(m0, toks, t as int + 1, false);
                }
                return Err(e);
            },
            Ok(kv) => {
                annotations.insert(kv.key, kv.value);
            },
        }
        t = t + 1;
    }
    proof {
        assert(toks.take(anno_strs.len() as int) =~= toks);
    }
    Ok(())
}

/// Metadata from an optional manifest, with the label and annotation tokens
/// given on the command line written over it in order.
pub fn metadata_from_matches(
    manifest: Option<Metadata>,
    label_strs: &Vec<String>,
    anno_strs: &Vec<String>,
) -> (r: Result<Metadata, Error>)
    requires
        manifest matches Some(m) ==> m.wf(),
    ensures
        ({
            let (name, l0, a0) = match manifest {
                Some(m) => (m.name, m.labels@, m.annotations@),
                None => (None::<String>, Seq::empty(), Seq::empty()),
            };
            match r {
                Ok(md) => {
                    &&& md.wf()
                    &&& md.name == name
                    &&& merge_label_tokens(l0, views_of(label_strs@)) == Ok::<_, nat>(md.labels@)
                    &&& merge_annotation_tokens(a0, views_of(anno_strs@)) == Ok::<_, nat>(md.annotations@)
                },
                Err(e) => {
                    ||| exists|i: nat|
                        {
                            &&& i < label_strs@.len()
                            &&& merge_label_tokens(l0, views_of(label_strs@)) == Err::<
                                Seq<(Seq<char>, Seq<char>)>,
                                _,
                            >(i)
                            &&& is_option_error(e, "labels"@, label_strs@[i as int]@, label_error_detail(label_strs@[i as int]@))
                        }
                    ||| {
                        &&& merge_label_tokens(l0, views_of(label_strs@)) is Ok
                        &&& exists|i: nat|
                            {
                                &&& i < anno_strs@.len()
                                &&& merge_annotation_tokens(a0, views_of(anno_strs@)) == Err::<
                                    Seq<(Seq<char>, Seq<char>)>,
                                    _,
                                >(i)
                                &&& is_option_error(e, "annotation"@, anno_strs@[i as int]@, annotation_error_detail(anno_strs@[i as int]@))
                            }
                    }
                },
            }
        }),
{
    let mut metadata = match manifest {
        Some(m) => m,
        None => Metadata::empty(),
    };
    match match_labels(label_strs, &mut metadata.labels) {
        Err(e) => return Err(e),
        Ok(()) => {},
    }
    match match_annotations(anno_strs, &mut metadata.annotations) {
        Err(e) => return Err(e),
        Ok(()) => {},
    }
    Ok(metadata)
}

/// The pairs that the label tokens `toks` give, in order, a token that does
/// not parse giving none.
pub open spec fn cli_label_pairs(toks: Seq<Seq<char>>) -> Seq<(Seq<char>, Seq<char>)>
    decreases toks.len(),
{
    if toks.len() == 0 {
        Seq::empty()
    } else {
        cli_label_pairs(toks.drop_last()) + match parse_labels(toks.last()) {
            Ok(ps) => ps,
            Err(_) => Seq::empty(),
        }
    }
}

proof fn lemma_pairs_map_update(s: Seq<(Seq<char>, Seq<char>)>, i: int, kv: (Seq<char>, Seq<char>))
    requires
        keys_unique(s),
        0 <= i < s.len(),
        s[i].0 == kv.0,
    ensures
        pairs_map(s.update(i, kv)) == pairs_map(s).insert(kv.0, kv.1),
    decreases s.len(),
{
    let u = s.update(i, kv);
    if i == s.len() - 1 {
        assert(u.drop_last() =~= s.drop_last());
        assert(pairs_map(s).insert(kv.0, kv.1) =~= pairs_map(s.drop_last()).insert(kv.0, kv.1));
    } else {
        let d = s.drop_last();
        assert(keys_unique(d)) by {
            assert forall|a: int, b: int| 0 <= a < d.len() && 0 <= b < d.len() && #[trigger] d[a].0 == #[trigger] d[b].0 implies a == b by {
                assert(s[a].0 == s[b].0);
            }
        }
        assert(u.drop_last() =~= d.update(i, kv));
        lemma_pairs_map_update(d, i, kv);
        assert(s.last().0 != kv.0) by {
            assert(s[s.len() - 1].0 != s[i].0);
        }
        assert(pairs_map(d).insert(kv.0, kv.1).insert(s.last().0, s.last().1) =~= pairs_map(d).insert(
            s.last().0,
            s.last().1,
        ).insert(kv.0, kv.1));
    }
}

/// Writing a pair into a mapping without repeated keys keeps it so, and
/// updates the mapping it stands for at that key.
pub proof fn lemma_upserted(s: Seq<(Seq<char>, Seq<char>)>, kv: (Seq<char>, Seq<char>))
    requires
        keys_unique(s),
    ensures
        keys_unique(upserted(s, kv)),
        pairs_map(upserted(s, kv)) == pairs_map(s).insert(kv.0, kv.1),
{
    let u = upserted(s, kv);
    if exists|i: int| 0 <= i < s.len() && #[trigger] s[i].0 == kv.0 {
        let c = choose|i: int| 0 <= i < s.len() && #[trigger] s[i].0 == kv.0;
        lemma_pairs_map_update(s, c, kv);
        assert forall|a: int, b: int| 0 <= a < u.len() && 0 <= b < u.len() && #[trigger] u[a].0 == #[trigger] u[b].0 implies a == b by {
            assert(s[a].0 == u[a].0);
            assert(s[b].0 == u[b].0);
        }
    } else {
        assert(u.drop_last() =~= s);
        assert forall|a: int, b: int| 0 <= a < u.len() && 0 <= b < u.len() && #[trigger] u[a].0 == #[trigger] u[b].0 implies a == b by {
            if a < s.len() && b < s.len() {
                assert(s[a].0 == s[b].0);
            } else if a < s.len() {
                assert(s[a].0 == kv.0);
            } else if b < s.len() {
                assert(s[b].0 == kv.0);
            }
        }
    }
}

proof fn lemma_upserted_all(s: Seq<(Seq<char>, Seq<char>)>, ps: Seq<(Seq<char>, Seq<char>)>)
    requires
        keys_unique(s),
    ensures
        keys_unique(upserted_all(s, ps)),
        pairs_map(upserted_all(s, ps)) == pairs_map(s + ps),
    decreases ps.len(),
{
    if ps.len() == 0 {
        assert(s + ps =~= s);
    } else {
        lemma_upserted_all(s, ps.drop_last());
        lemma_upserted(upserted_all(s, ps.drop_last()), ps.last());
        assert((s + ps).drop_last() =~= s + ps.drop_last());
        assert((s + ps).last() == ps.last());
    }
}

/// The mapping of two lists one after the other is the first's mapping
/// overridden by the second's.
pub proof fn lemma_pairs_map_concat(a: Seq<(Seq<char>, Seq<char>)>, b: Seq<(Seq<char>, Seq<char>)>)
    ensures
        pairs_map(a + b) == pairs_map(a).union_prefer_right(pairs_map(b)),
    decreases b.len(),
{
    if b.len() == 0 {
        assert(a + b =~= a);
        assert(pairs_map(a).union_prefer_right(Map::empty()) =~= pairs_map(a));
    } else {
        lemma_pairs_map_concat(a, b.drop_last());
        assert((a + b).drop_last() =~= a + b.drop_last());
        assert((a + b).last() == b.last());
        assert(pairs_map(a).union_prefer_right(pairs_map(b.drop_last())).insert(b.last().0, b.last().1)
            =~= pairs_map(a).union_prefer_right(pairs_map(b.drop_last()).insert(b.last().0, b.last().1)));
    }
}

proof fn lemma_merge_labels_map(s: Seq<(Seq<char>, Seq<char>)>, toks: Seq<Seq<char>>)
    requires
        keys_unique(s),
        merge_label_tokens(s, toks) is Ok,
    ensures
        keys_unique(merge_label_tokens(s, toks)->Ok_0),
        pairs_map(merge_label_tokens(s, toks)->Ok_0) == pairs_map(s + cli_label_pairs(toks)),
    decreases toks.len(),
{
    if toks.len() > 0 {
        let d = toks.drop_last();
        lemma_merge_labels_map(s, d);
        let m = merge_label_tokens(s, d)->Ok_0;
        let ps = parse_labels(toks.last())->Ok_0;
        lemma_upserted_all(m, ps);
        lemma_pairs_map_concat(m, ps);
        lemma_pairs_map_concat(s + cli_label_pairs(d), ps);
        assert(s + cli_label_pairs(toks) =~= s + cli_label_pairs(d) + ps);
    } else {
        assert(s + cli_label_pairs(toks) =~= s);
    }
}

/// Whether the label tokens parse does not depend on the mapping they are
/// written into.
proof fn lemma_merge_labels_ok(s: Seq<(Seq<char>, Seq<char>)>, t: Seq<(Seq<char>, Seq<char>)>, toks: Seq<Seq<char>>)
    ensures
        merge_label_tokens(s, toks) is Ok <==> merge_label_tokens(t, toks) is Ok,
    decreases toks.len(),
{
    if toks.len() > 0 {
        lemma_merge_labels_ok(s, t, toks.drop_last());
    }
}

/// Command-line labels take precedence: the merged mapping is the manifest's
/// mapping overridden, key by key, by the pairs of the command-line tokens
/// in the order given.
pub proof fn lemma_cli_labels_override(manifest: Seq<(Seq<char>, Seq<char>)>, toks: Seq<Seq<char>>)
    requires
        keys_unique(manifest),
        merge_label_tokens(manifest, toks) is Ok,
    ensures
        pairs_map(merge_label_tokens(manifest, toks)->Ok_0) == pairs_map(manifest).union_prefer_right(
            pairs_map(cli_label_pairs(toks)),
        ),
{
    lemma_merge_labels_map(manifest, toks);
    lemma_pairs_map_concat(manifest, cli_label_pairs(toks));
}

/// Merging is idempotent: writing the same label tokens a second time into
/// the result of the first merge succeeds and leaves the mapping unchanged.
pub proof fn lemma_merge_labels_idempotent(manifest: Seq<(Seq<char>, Seq<char>)>, toks: Seq<Seq<char>>)
    requires
        keys_unique(manifest),
        merge_label_tokens(manifest, toks) is Ok,
    ensures
        merge_label_tokens(merge_label_tokens(manifest, toks)->Ok_0, toks) is Ok,
        pairs_map(merge_label_tokens(merge_label_tokens(manifest, toks)->Ok_0, toks)->Ok_0) == pairs_map(
            merge_label_tokens(manifest, toks)->Ok_0,
        ),
{
    let once = merge_label_tokens(manifest, toks)->Ok_0;
    lemma_merge_labels_ok(manifest, once, toks);
    lemma_cli_labels_override(manifest, toks);
    lemma_merge_labels_map(manifest, toks);
    lemma_cli_labels_override(once, toks);
    let c = pairs_map(cli_label_pairs(toks));
    assert(pairs_map(manifest).union_prefer_right(c).union_prefer_right(c) =~= pairs_map(manifest).union_prefer_right(c));
}

/// The pairs that the annotation tokens `toks` give, in order, a token that
/// does not parse giving none.
pub open spec fn cli_annotation_pairs(toks: Seq<Seq<char>>) -> Seq<(Seq<char>, Seq<char>)>
    decreases toks.len(),
{
    if toks.len() == 0 {
        Seq::empty()
    } else {
        cli_annotation_pairs(toks.drop_last()) + match parse_annotation(toks.last()) {
            Ok(p) => seq![p],
            Err(_) => Seq::empty(),
        }
    }
}

proof fn lemma_merge_annotations_map(s: Seq<(Seq<char>, Seq<char>)>, toks: Seq<Seq<char>>)
    requires
        keys_unique(s),
        merge_annotation_tokens(s, toks) is Ok,
    ensures
        keys_unique(merge_annotation_tokens(s, toks)->Ok_0),
        pairs_map(merge_annotation_tokens(s, toks)->Ok_0) == pairs_map(s + cli_annotation_pairs(toks)),
    decreases toks.len(),
{
    if toks.len() > 0 {
        let d = toks.drop_last();
        lemma_merge_annotations_map(s, d);
        let m = merge_annotation_tokens(s, d)->Ok_0;
        let p = parse_annotation(toks.last())->Ok_0;
        lemma_upserted(m, p);
        lemma_pairs_map_concat(m, seq![p]);
        lemma_pairs_map_concat(s + cli_annotation_pairs(d), seq![p]);
        assert(s + cli_annotation_pairs(toks) =~= s + cli_annotation_pairs(d) + seq![p]);
        assert(seq![p].drop_last() =~= Seq::<(Seq<char>, Seq<char>)>::empty());
        assert(pairs_map(seq![p]) == pairs_map(Seq::<(Seq<char>, Seq<char>)>::empty()).insert(p.0, p.1));
        assert(pairs_map(m).union_prefer_right(pairs_map(seq![p])) =~= pairs_map(m).insert(p.0, p.1));
    } else {
        assert(s + cli_annotation_pairs(toks) =~= s);
    }
}

/// Command-line annotations take precedence in the same way: the merged
/// mapping is the manifest's mapping overridden, key by key, by the
/// command-line pairs in the order given.
pub proof fn lemma_cli_annotations_override(manifest: Seq<(Seq<char>, Seq<char>)>, toks: Seq<Seq<char>>)
    requires
        keys_unique(manifest),
        merge_annotation_tokens(manifest, toks) is Ok,
    ensures
        pairs_map(merge_annotation_tokens(manifest, toks)->Ok_0) == pairs_map(manifest).union_prefer_right(
            pairs_map(cli_annotation_pairs(toks)),
        ),
{
    lemma_merge_annotations_map(manifest, toks);
    lemma_pairs_map_concat(manifest, cli_annotation_pairs(toks));
}

} // verus!
