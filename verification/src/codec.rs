use vstd::prelude::*;
use vstd::string::StrSliceExecFns;
use vstd::string::StringExecFns;

use crate::error::{Diagnostic, Error, Severity};
use crate::tree::{empty_table, entries_unique_keys, model_wf, tab_has_key, TreeModel, TreeValue};

verus! {

broadcast use {vstd::seq::group_seq_axioms, vstd::std_specs::vec::group_vec_axioms};

/// What parsing a canonical (TOML) document yields: the tree for the texts
/// that parse, nothing for the texts that do not. A function of the text
/// alone.
pub uninterp spec fn toml_tree_of(s: Seq<char>) -> Option<TreeValue>;

/// What parsing a legacy (YAML) document and carrying it over into the
/// engine's tree yields: the tree, nulls intact, for documents whose every
/// mapping key is a string and whose numbers the canonical format can hold.
/// A function of the text alone.
pub uninterp spec fn yaml_tree_of(s: Seq<char>) -> Option<TreeValue>;

/// The generic value type of the toml crate, opaque to the proofs.
#[verifier::external_type_specification]
#[verifier::external_body]
pub struct ExTomlValue(toml::Value);

/// The generic value type of the serde_yaml crate, opaque to the proofs.
#[verifier::external_type_specification]
#[verifier::external_body]
pub struct ExYamlValue(serde_yaml::Value);

/// The number type of the serde_yaml crate, opaque to the proofs.
#[verifier::external_type_specification]
#[verifier::external_body]
pub struct ExYamlNumber(serde_yaml::Number);

/// Why a legacy document could not be carried over.
pub enum LegacyFault {
    /// The legacy text failed to parse.
    Syntax(String),
    /// The document holds something the canonical format cannot carry.
    Unserializable,
    /// An integer lies outside the canonical signed range.
    IntRange,
}

#[verifier::external_body]
fn from_toml(v: toml::Value) -> TreeValue {
    match v {
        toml::Value::String(s) => TreeValue::Text(s),
        toml::Value::Integer(i) => TreeValue::Integer(i),
        toml::Value::Float(f) => TreeValue::Float(f.to_bits()),
        toml::Value::Boolean(b) => TreeValue::Bool(b),
        toml::Value::Datetime(d) => TreeValue::Datetime(d.to_string()),
        toml::Value::Array(a) => TreeValue::Array(a.into_iter().map(from_toml).collect()),
        toml::Value::Table(t) => TreeValue::Table(
            t.into_iter().map(|(k, val)| (k, from_toml(val))).collect(),
        ),
    }
}

/// Relies on toml::from_str::<toml::Value>: parsing is deterministic in the
/// text alone; a parsed document is a table, its maps carry unique keys.
#[verifier::external_body]
pub fn parse_toml_str(s: &str) -> (r: Result<TreeValue, String>)
    ensures
        r is Ok <==> toml_tree_of(s@) is Some,
        r is Ok ==> r->Ok_0 == toml_tree_of(s@)->0,
        r is Ok ==> r->Ok_0@ is Table && model_wf(r->Ok_0@),
{
    match toml::from_str::<toml::Value>(s) {
        Ok(v) => Ok(from_toml(v)),
        Err(e) => Err(e.to_string()),
    }
}

#[verifier::external_body]
fn from_yaml_number(n: &serde_yaml::Number) -> Result<TreeValue, LegacyFault> {
    match n.as_i64() {
        Some(i) => Ok(TreeValue::Integer(i)),
        None => match n.as_f64() {
            Some(f) if n.as_u64().is_none() => Ok(TreeValue::Float(f.to_bits())),
            _ => Err(LegacyFault::IntRange),
        },
    }
}

#[verifier::external_body]
fn from_yaml_entry(k: serde_yaml::Value, v: serde_yaml::Value) -> Result<
    (String, TreeValue),
    LegacyFault,
> {
    match k {
        serde_yaml::Value::String(ks) => Ok((ks, from_yaml(v)?)),
        _ => Err(LegacyFault::Unserializable),
    }
}

#[verifier::external_body]
fn from_yaml(v: serde_yaml::Value) -> Result<TreeValue, LegacyFault> {
    match v {
        serde_yaml::Value::Null => Ok(TreeValue::Null),
        serde_yaml::Value::Bool(b) => Ok(TreeValue::Bool(b)),
        serde_yaml::Value::Number(n) => from_yaml_number(&n),
        serde_yaml::Value::String(s) => Ok(TreeValue::Text(s)),
        serde_yaml::Value::Sequence(s) => Ok(TreeValue::Array(
            s.into_iter().map(from_yaml).collect::<Result<Vec<TreeValue>, LegacyFault>>()?,
        )),
        serde_yaml::Value::Mapping(m) => Ok(TreeValue::Table(
            m.into_iter().map(|(k, v)| from_yaml_entry(k, v)).collect::<Result<Vec<_>, _>>()?,
        )),
        serde_yaml::Value::Tagged(_) => Err(LegacyFault::Unserializable),
    }
}

/// Relies on serde_yaml::from_str::<serde_yaml::Value>: parsing is
/// deterministic in the text alone; parsed mappings reject duplicate keys.
#[verifier::external_body]
pub fn parse_yaml_str(s: &str) -> (r: Result<TreeValue, LegacyFault>)
    ensures
        r is Ok <==> yaml_tree_of(s@) is Some,
        r is Ok ==> r->Ok_0 == yaml_tree_of(s@)->0,
        r is Ok ==> model_wf(r->Ok_0@),
{
    match serde_yaml::from_str::<serde_yaml::Value>(s) {
        Ok(v) => from_yaml(v),
        Err(e) => Err(LegacyFault::Syntax(e.to_string())),
    }
}

/// The text with a leading byte-order mark removed.
pub open spec fn spec_strip_bom(s: Seq<char>) -> Seq<char> {
    if s.len() > 0 && s[0] == '\u{FEFF}' {
        s.subrange(1, s.len() as int)
    } else {
        s
    }
}

/// Relies on str::strip_prefix: drops the byte-order mark when it leads.
#[verifier::external_body]
pub fn strip_bom(s: &str) -> (r: &str)
    ensures
        r@ == spec_strip_bom(s@),
{
    match s.strip_prefix('\u{FEFF}') {
        Some(t) => t,
        None => s,
    }
}

/// The array elements that survive pruning, each itself pruned.
pub open spec fn prune_seq(items: Seq<TreeModel>) -> Seq<TreeModel>
    decreases items,
{
    if items.len() == 0 {
        Seq::empty()
    } else {
        let prev = prune_seq(items.drop_last());
        match spec_prune(items.last()) {
            Some(v) => prev.push(v),
            None => prev,
        }
    }
}

/// The table entries whose values survive pruning, each value pruned.
pub open spec fn prune_entries(entries: Seq<(Seq<char>, TreeModel)>) -> Seq<
    (Seq<char>, TreeModel),
>
    decreases entries,
{
    if entries.len() == 0 {
        Seq::empty()
    } else {
        let prev = prune_entries(entries.drop_last());
        match spec_prune(entries.last().1) {
            Some(v) => prev.push((entries.last().0, v)),
            None => prev,
        }
    }
}

/// Null pruning: a null scalar is removed; an array or table that becomes
/// empty after its null-valued children are removed is itself removed.
/// `None` means the value vanishes entirely.
pub open spec fn spec_prune(m: TreeModel) -> Option<TreeModel>
    decreases m,
{
    match m {
        TreeModel::Null => None,
        TreeModel::Array(items) => {
            let kept = prune_seq(items);
            if kept.len() == 0 {
                None
            } else {
                Some(TreeModel::Array(kept))
            }
        },
        TreeModel::Table(entries) => {
            let kept = prune_entries(entries);
            if kept.len() == 0 {
                None
            } else {
                Some(TreeModel::Table(kept))
            }
        },
        _ => Some(m),
    }
}

/// A whole document after pruning: a document that degenerates to nothing
/// becomes an empty table rather than an absent value.
pub open spec fn spec_prune_doc(m: TreeModel) -> TreeModel {
    match spec_prune(m) {
        Some(v) => v,
        None => empty_table(),
    }
}

/// The keys removed while pruning the elements of an array, in order.
pub open spec fn removed_in_seq(items: Seq<TreeModel>) -> Seq<Seq<char>>
    decreases items,
{
    if items.len() == 0 {
        Seq::empty()
    } else {
        removed_in_seq(items.drop_last()) + removed_keys(items.last())
    }
}

/// The keys removed while pruning the entries of a table, in order: the
/// removals inside an entry's value first, then the entry's own key when the
/// value vanishes.
pub open spec fn removed_in_entries(entries: Seq<(Seq<char>, TreeModel)>) -> Seq<Seq<char>>
    decreases entries,
{
    if entries.len() == 0 {
        Seq::empty()
    } else {
        let e = entries.last();
        removed_in_entries(entries.drop_last()) + removed_keys(e.1) + (if spec_prune(e.1)
            is None {
            seq![e.0]
        } else {
            Seq::empty()
        })
    }
}

/// Every table key removed while pruning, in report order.
pub open spec fn removed_keys(m: TreeModel) -> Seq<Seq<char>>
    decreases m,
{
    match m {
        TreeModel::Array(items) => removed_in_seq(items),
        TreeModel::Table(entries) => removed_in_entries(entries),
        _ => Seq::empty(),
    }
}

/// Prune one value; the removed table keys come back alongside.
fn prune_value(v: &TreeValue) -> (r: (Option<TreeValue>, Vec<String>))
    requires
        model_wf(v@),
    ensures
        match spec_prune(v@) {
            Some(t) => r.0 is Some && r.0->0@ == t && model_wf(r.0->0@),
            None => r.0 is None,
        },
        r.1@.map_values(|s: String| s@) == removed_keys(v@),
    decreases *v,
{
    match v {
        TreeValue::Null => {
            let r = (None::<TreeValue>, Vec::<String>::new());
            proof {
                assert(r.1@.map_values(|s: String| s@) =~= removed_keys(v@));
            }
            r
        },
        TreeValue::Array(items) => {
            let ghost im = v@->Array_0;
            let mut kept: Vec<TreeValue> = Vec::new();
            let mut removed: Vec<String> = Vec::new();
            let mut i: usize = 0;
            proof {
                assert(im.take(0) =~= Seq::<TreeModel>::empty());
                assert(removed@.map_values(|s: String| s@) =~= removed_in_seq(im.take(0)));
            }
            while i < items.len()
                invariant
                    *v is Array && v->Array_0 == *items,
                    im == v@->Array_0,
                    model_wf(v@),
                    0 <= i <= items.len(),
                    im.len() == items.len(),
                    kept@.map_values(|t: TreeValue| t@) == prune_seq(im.take(i as int)),
                    forall|p: int| 0 <= p < kept.len() ==> model_wf((#[trigger] kept[p])@),
                    removed@.map_values(|s: String| s@) == removed_in_seq(im.take(i as int)),
                decreases items.len() - i,
            {
                proof {
                    assert(im[i as int] == items[i as int]@);
                    assert(model_wf(im[i as int]));
                    assert(im.take(i + 1).drop_last() =~= im.take(i as int));
                    assert(im.take(i + 1).last() == im[i as int]);
                    assert(decreases_to!(*v => v->Array_0));
                    assert(decreases_to!(*items => items@));
                    assert(decreases_to!(items@ => items@[i as int]));
                    assert(decreases_to!(*v => items@[i as int]));
                }
                let (sub, mut subrem) = prune_value(&items[i]);
                removed.append(&mut subrem);
                proof {
                    assert(removed@.map_values(|s: String| s@) =~= removed_in_seq(
                        im.take(i + 1),
                    ));
                }
                match sub {
                    Some(t) => {
                        kept.push(t);
                        proof {
                            assert(kept@.map_values(|t: TreeValue| t@) =~= prune_seq(
                                im.take(i + 1),
                            ));
                        }
                    },
                    None => {
                        proof {
                            assert(kept@.map_values(|t: TreeValue| t@) =~= prune_seq(
                                im.take(i + 1),
                            ));
                        }
                    },
                }
                i = i + 1;
            }
            proof {
                assert(im.take(items.len() as int) =~= im);
            }
            if kept.len() == 0 {
                (None, removed)
            } else {
                let out = TreeValue::Array(kept);
                proof {
                    assert(out@->Array_0 =~= prune_seq(im));
                }
                (Some(out), removed)
            }
        },
        TreeValue::Table(entries) => {
            let ghost em = v@->Table_0;
            let mut kept: Vec<(String, TreeValue)> = Vec::new();
            let mut removed: Vec<String> = Vec::new();
            let mut i: usize = 0;
            proof {
                assert(em.take(0) =~= Seq::<(Seq<char>, TreeModel)>::empty());
                assert(removed@.map_values(|s: String| s@) =~= removed_in_entries(em.take(0)));
            }
            while i < entries.len()
                invariant
                    *v is Table && v->Table_0 == *entries,
                    em == v@->Table_0,
                    model_wf(v@),
                    0 <= i <= entries.len(),
                    em.len() == entries.len(),
                    kept@.map_values(|e: (String, TreeValue)| (e.0@, e.1@)) == prune_entries(
                        em.take(i as int),
                    ),
                    forall|p: int| 0 <= p < kept.len() ==> model_wf((#[trigger] kept[p]).1@),
                    forall|p: int|
                        0 <= p < kept.len() ==> exists|q: int|
                            0 <= q < i && (#[trigger] kept[p]).0@ == em[q].0,
                    removed@.map_values(|s: String| s@) == removed_in_entries(em.take(i as int)),
                decreases entries.len() - i,
            {
                proof {
                    assert(em[i as int] == (entries[i as int].0@, entries[i as int].1@));
                    assert(model_wf(em[i as int].1));
                    assert(em.take(i + 1).drop_last() =~= em.take(i as int));
                    assert(em.take(i + 1).last() == em[i as int]);
                    assert(decreases_to!(*v => v->Table_0));
                    assert(decreases_to!(*entries => entries@));
                    assert(decreases_to!(entries@ => entries@[i as int]));
                    assert(decreases_to!(entries@[i as int] => entries@[i as int].1));
                    assert(decreases_to!(*v => entries@[i as int].1));
                }
                let (sub, mut subrem) = prune_value(&entries[i].1);
                removed.append(&mut subrem);
                match sub {
                    Some(t) => {
                        kept.push((entries[i].0.clone(), t));
                        proof {
                            assert(removed@.map_values(|s: String| s@) =~= removed_in_entries(
                                em.take(i + 1),
                            ));
                            assert(kept@.map_values(|e: (String, TreeValue)| (e.0@, e.1@))
                                =~= prune_entries(em.take(i + 1)));
                        }
                    },
                    None => {
                        removed.push(entries[i].0.clone());
                        proof {
                            assert(removed@.map_values(|s: String| s@) =~= removed_in_entries(
                                em.take(i + 1),
                            ));
                            assert(kept@.map_values(|e: (String, TreeValue)| (e.0@, e.1@))
                                =~= prune_entries(em.take(i + 1)));
                        }
                    },
                }
                i = i + 1;
            }
            proof {
                assert(em.take(entries.len() as int) =~= em);
            }
            if kept.len() == 0 {
                (None, removed)
            } else {
                let out = TreeValue::Table(kept);
                proof {
                    assert(out@->Table_0 =~= prune_entries(em));
                    assert(entries_unique_keys(out@->Table_0)) by {
                        let ke = out@->Table_0;
                        assert forall|p: int, q: int| 0 <= p < q < ke.len() implies (
                        #[trigger] ke[p]).0 != (#[trigger] ke[q]).0 by {
                            let sp = choose|s: int|
                                0 <= s < em.len() && kept[p].0@ == em[s].0;
                            let sq = choose|s: int|
                                0 <= s < em.len() && kept[q].0@ == em[s].0;
                            assert(kept[p].0@ == em[sp].0 && kept[q].0@ == em[sq].0);
                            lemma_prune_entries_order(em, p, q);
                        }
                    }
                }
                (Some(out), removed)
            }
        },
        TreeValue::Bool(_) | TreeValue::Integer(_) | TreeValue::Float(_) | TreeValue::Text(_)
            | TreeValue::Datetime(_) => {
            let r = (Some(v.clone()), Vec::<String>::new());
            proof {
                assert(r.1@.map_values(|s: String| s@) =~= removed_keys(v@));
            }
            r
        },
    }
}

/// Surviving entries keep distinct keys when the source table had them.
proof fn lemma_prune_entries_order(entries: Seq<(Seq<char>, TreeModel)>, p: int, q: int)
    requires
        entries_unique_keys(entries),
        0 <= p < q < prune_entries(entries).len(),
    ensures
        prune_entries(entries)[p].0 != prune_entries(entries)[q].0,
    decreases entries.len(),
{
    lemma_prune_entries_sources(entries);
}

/// Every surviving entry key is some source entry key, and distinct
/// positions come from distinct sources.
proof fn lemma_prune_entries_sources(entries: Seq<(Seq<char>, TreeModel)>)
    requires
        entries_unique_keys(entries),
    ensures
        forall|p: int, q: int|
            0 <= p < q < prune_entries(entries).len() ==> (#[trigger] prune_entries(
                entries,
            )[p]).0 != (#[trigger] prune_entries(entries)[q]).0,
    decreases entries.len(),
{
    if entries.len() > 0 {
        let e0 = entries.drop_last();
        assert(entries_unique_keys(e0)) by {
            assert(forall|i: int| 0 <= i < e0.len() ==> e0[i] == entries[i]);
        }
        lemma_prune_entries_sources(e0);
        lemma_prune_entries_keys(e0);
        let ke = prune_entries(entries);
        let k0 = prune_entries(e0);
        assert forall|p: int, q: int| 0 <= p < q < ke.len() implies (#[trigger] ke[p]).0 != (
        #[trigger] ke[q]).0 by {
            if q < k0.len() {
                assert(ke[p] == k0[p] && ke[q] == k0[q]);
            } else {
                assert(ke[q] == (entries.last().0, spec_prune(entries.last().1)->0));
                assert(ke[p] == k0[p]);
                assert(tab_has_key(e0, k0[p].0));
                let s = crate::tree::tab_index_of(e0, k0[p].0);
                assert(entries[s] == e0[s]);
                if ke[p].0 == entries.last().0 {
                    assert(entries[s].0 == entries[entries.len() - 1].0);
                }
            }
        }
    }
}

/// Every surviving key occurs in the source table.
proof fn lemma_prune_entries_keys(entries: Seq<(Seq<char>, TreeModel)>)
    ensures
        forall|p: int|
            0 <= p < prune_entries(entries).len() ==> tab_has_key(
                entries,
                (#[trigger] prune_entries(entries)[p]).0,
            ),
    decreases entries.len(),
{
    if entries.len() > 0 {
        let e0 = entries.drop_last();
        lemma_prune_entries_keys(e0);
        let ke = prune_entries(entries);
        let k0 = prune_entries(e0);
        assert forall|p: int| 0 <= p < ke.len() implies tab_has_key(
            entries,
            (#[trigger] ke[p]).0,
        ) by {
            if p < k0.len() {
                assert(ke[p] == k0[p]);
                assert(tab_has_key(e0, k0[p].0));
                let s = crate::tree::tab_index_of(e0, k0[p].0);
                assert(entries[s] == e0[s]);
            } else {
                assert(ke[p].0 == entries.last().0);
                assert(entries[entries.len() - 1].0 == ke[p].0);
            }
        }
    }
}

/// The characters that blankness ignores.
pub open spec fn is_space_char(c: char) -> bool {
    c == ' ' || c == '\t' || c == '\r' || c == '\n'
}

/// Whether the text holds nothing but whitespace.
pub open spec fn spec_blank(s: Seq<char>) -> bool {
    forall|i: int| 0 <= i < s.len() ==> is_space_char(#[trigger] s[i])
}

/// Whether the text holds nothing but whitespace.
pub fn is_blank(s: &str) -> (r: bool)
    ensures
        r == spec_blank(s@),
{
    let n = s.unicode_len();
    let mut i: usize = 0;
    while i < n
        invariant
            n == s@.len(),
            0 <= i <= n,
            forall|j: int| 0 <= j < i ==> is_space_char(#[trigger] s@[j]),
        decreases n - i,
    {
        let c = s.get_char(i);
        if !(c == ' ' || c == '\t' || c == '\r' || c == '\n') {
            return false;
        }
        i = i + 1;
    }
    true
}

/// The extension of the path's file name: what follows the last dot, when
/// that dot neither leads the file name nor ends it.
pub open spec fn spec_extension(p: Seq<char>) -> Option<Seq<char>> {
    let name = if crate::paths::last_slash(p) == -1 {
        p
    } else {
        p.subrange(crate::paths::last_slash(p) + 1, p.len() as int)
    };
    let d = last_dot(name);
    if d <= 0 || d == name.len() - 1 {
        None
    } else {
        Some(name.subrange(d + 1, name.len() as int))
    }
}

/// Index of the last `.` in `p`, or -1 when there is none.
pub open spec fn last_dot(p: Seq<char>) -> int
    decreases p.len(),
{
    if p.len() == 0 {
        -1
    } else if p.last() == '.' {
        p.len() - 1
    } else {
        last_dot(p.drop_last())
    }
}

/// Whether the path's extension marks the legacy format.
pub open spec fn spec_is_legacy(p: Seq<char>) -> bool {
    spec_extension(p) == Some("yaml"@) || spec_extension(p) == Some("yml"@)
}

/// Index of the last `.` in `s`, if any.
fn find_last_dot(s: &str) -> (r: Option<usize>)
    ensures
        match r {
            Some(i) => last_dot(s@) == i && i < s@.len(),
            None => last_dot(s@) == -1,
        },
{
    let n = s.unicode_len();
    let mut best: Option<usize> = None;
    let mut i: usize = 0;
    proof {
        assert(s@.take(0) =~= Seq::<char>::empty());
    }
    while i < n
        invariant
            n == s@.len(),
            0 <= i <= n,
            match best {
                Some(b) => last_dot(s@.take(i as int)) == b && b < i,
                None => last_dot(s@.take(i as int)) == -1,
            },
        decreases n - i,
    {
        proof {
            assert(s@.take(i + 1).drop_last() =~= s@.take(i as int));
            assert(s@.take(i + 1).last() == s@[i as int]);
        }
        if s.get_char(i) == '.' {
            best = Some(i);
        }
        i = i + 1;
    }
    proof {
        assert(s@.take(n as int) =~= s@);
    }
    best
}

/// Whether the file's extension marks the legacy line-oriented format.
pub fn is_legacy_path(path: &str) -> (r: bool)
    ensures
        r == spec_is_legacy(path@),
{
    let n = path.unicode_len();
    let name: &str = match crate::paths::find_last_slash(path) {
        Some(i) => path.substring_char(i + 1, n),
        None => path,
    };
    let ext: Option<&str> = match find_last_dot(name) {
        Some(d) => {
            if d == 0 || d == name.unicode_len() - 1 {
                None
            } else {
                Some(name.substring_char(d + 1, name.unicode_len()))
            }
        },
        None => None,
    };
    match ext {
        Some(e) => {
            let es = String::from_str(e);
            es.eq(&String::from_str("yaml")) || es.eq(&String::from_str("yml"))
        },
        None => false,
    }
}

/// Diagnostics recorded when a legacy file is converted: the deprecation
/// warning, then one warning for each reported pruned key.
fn legacy_diagnostics(path: &str, removed: &Vec<String>) -> (r: Vec<Diagnostic>)
    ensures
        r@.len() == 1 + removed@.len(),
{
    let mut out: Vec<Diagnostic> = Vec::new();
    out.push(
        Diagnostic {
            severity: Severity::Warning,
            message: String::from_str("YAML config ").concat(path).concat(
                " is deprecated, please migrate to TOML",
            ),
        },
    );
    let mut i: usize = 0;
    while i < removed.len()
        invariant
            0 <= i <= removed.len(),
            out@.len() == 1 + i,
        decreases removed.len() - i,
    {
        out.push(
            Diagnostic {
                severity: Severity::Warning,
                message: String::from_str("Removing null key \"").concat(
                    removed[i].as_str(),
                ).concat("\" from the end config"),
            },
        );
        i = i + 1;
    }
    out
}

/// What reading one document yields: the parsed tree — converted from the
/// legacy format, nulls pruned, when the extension asks for it — or nothing
/// when the text is unreadable under its format.
pub open spec fn spec_document(path: Seq<char>, contents: Seq<char>) -> Option<TreeModel> {
    let t = spec_strip_bom(contents);
    if spec_is_legacy(path) && !spec_blank(t) {
        match yaml_tree_of(t) {
            Some(y) => {
                let pruned = spec_prune_doc(y@);
                if pruned is Table {
                    Some(pruned)
                } else {
                    None
                }
            },
            None => None,
        }
    } else {
        match toml_tree_of(t) {
            Some(v) => Some(v@),
            None => None,
        }
    }
}

/// Read one document into the generic tree: strip a leading byte-order
/// mark, convert the legacy format (pruning nulls) when the file's extension
/// asks for it, and parse the canonical format otherwise. Success and the
/// resulting tree are a function of the path's extension and the text alone.
pub fn deserialize_config(path: &str, contents: &str, warn_pruned: bool) -> (r: (
    Result<TreeValue, Error>,
    Vec<Diagnostic>,
))
    ensures
        ({
            let t = spec_strip_bom(contents@);
            let legacy = spec_is_legacy(path@) && !spec_blank(t);
            &&& (legacy && yaml_tree_of(t) is None) ==> r.0 is Err
            &&& (legacy && yaml_tree_of(t) is Some) ==> {
                let pruned = spec_prune_doc(yaml_tree_of(t)->0@);
                &&& pruned is Table ==> r.0 is Ok && r.0->Ok_0@ == pruned && model_wf(
                    r.0->Ok_0@,
                )
                &&& !(pruned is Table) ==> (r.0 matches Err(Error::TomlSe(_)))
            }
            &&& !legacy ==> (r.0 is Ok <==> toml_tree_of(t) is Some)
            &&& (!legacy && toml_tree_of(t) is Some) ==> r.0->Ok_0 == toml_tree_of(t)->0
                && r.0->Ok_0@ is Table && model_wf(r.0->Ok_0@)
            &&& (!legacy && toml_tree_of(t) is None) ==> (r.0 matches Err(Error::Toml(_)))
            &&& r.0 is Ok ==> r.0->Ok_0@ is Table && model_wf(r.0->Ok_0@)
            &&& !legacy ==> r.1@.len() == 0
            &&& legacy ==> r.1@.len() >= 1
        }),
        r.0 is Ok <==> spec_document(path@, contents@) is Some,
        r.0 is Ok ==> r.0->Ok_0@ == spec_document(path@, contents@)->0,
{
    let text = strip_bom(contents);
    if is_legacy_path(path) && !is_blank(text) {
        match parse_yaml_str(text) {
            Ok(tree) => {
                let (pruned, removed) = prune_yaml_nulls(&tree, warn_pruned);
                let diags = legacy_diagnostics(path, &removed);
                match &pruned {
                    TreeValue::Table(_) => (Ok(pruned), diags),
                    _ => (
                        Err(
                            Error::TomlSe(
                                String::from_str(
                                    "legacy document is not a table after null pruning",
                                ),
                            ),
                        ),
                        diags,
                    ),
                }
            },
            Err(fault) => {
                let err = match fault {
                    LegacyFault::Syntax(m) => Error::Yaml(m),
                    LegacyFault::Unserializable => Error::TomlSe(
                        String::from_str("legacy document cannot be carried into a table"),
                    ),
                    LegacyFault::IntRange => Error::Toml(
                        String::from_str("integer out of range for the canonical format"),
                    ),
                };
                (Err(err), legacy_diagnostics(path, &Vec::new()))
            },
        }
    } else {
        match parse_toml_str(text) {
            Ok(tree) => (Ok(tree), Vec::new()),
            Err(m) => (Err(Error::Toml(m)), Vec::new()),
        }
    }
}

/// Prune the nulls from a legacy document so the canonical format can carry
/// it; a document that degenerates entirely becomes an empty table. The
/// removed keys come back only when the caller asked for them.
pub fn prune_yaml_nulls(v: &TreeValue, warn_pruned: bool) -> (r: (TreeValue, Vec<String>))
    requires
        model_wf(v@),
    ensures
        r.0@ == spec_prune_doc(v@),
        model_wf(r.0@),
        warn_pruned ==> r.1@.map_values(|s: String| s@) == removed_keys(v@),
        !warn_pruned ==> r.1@.len() == 0,
{
    let (pruned, removed) = prune_value(v);
    let tree = match pruned {
        Some(t) => t,
        None => TreeValue::new_table(),
    };
    if warn_pruned {
        (tree, removed)
    } else {
        (tree, Vec::new())
    }
}

} // verus!
