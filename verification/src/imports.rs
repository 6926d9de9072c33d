use vstd::prelude::*;
use vstd::string::StringExecFns;

use crate::error::Error;
use crate::paths::{normalize_import, spec_normalize_import};
use crate::tree::{
    find_key, model_wf, tab_get, tab_has_key, tab_index_of, TreeModel, TreeValue,
};

verus! {

broadcast use {vstd::seq::group_seq_axioms, vstd::std_specs::vec::group_vec_axioms};

/// Maximum number of depth for the configuration file imports.
pub const IMPORT_RECURSION_LIMIT: u32 = 5;

/// The value bound to `k` at the top level of a document, when the document
/// is a table that has the key.
pub open spec fn spec_get(doc: TreeModel, k: Seq<char>) -> Option<TreeModel> {
    if doc is Table && tab_has_key(doc->Table_0, k) {
        Some(tab_get(doc->Table_0, k))
    } else {
        None
    }
}

/// Where the import list of a document is found: under `import` at the
/// root, or under `general.import` for backward compatibility.
pub open spec fn spec_import_value(doc: TreeModel) -> Option<TreeModel> {
    match spec_get(doc, "import"@) {
        Some(v) => Some(v),
        None => match spec_get(doc, "general"@) {
            Some(g) => spec_get(g, "import"@),
            None => None,
        },
    }
}

/// Why import extraction fails as a whole.
pub enum ImportsFault {
    /// The import key's value is not an array.
    BadType,
    /// A non-empty import list met an exhausted recursion budget.
    Depth,
}

/// Each array element normalized independently: a string becomes a resolved
/// path; anything else is a per-element fault that spares the rest.
pub open spec fn spec_import_list(
    items: Seq<TreeModel>,
    base: Seq<char>,
    home: Option<Seq<char>>,
) -> Seq<Result<Seq<char>, ()>> {
    Seq::new(
        items.len(),
        |i: int|
            if 0 <= i < items.len() {
                match items[i] {
                    TreeModel::Text(s) => Ok(spec_normalize_import(base, s, home)),
                    _ => Err(()),
                }
            } else {
                Err(())
            },
    )
}

/// The import paths a document asks for: absence of the key is an empty
/// list; a non-array value is a fault; a non-empty list under a zero budget
/// is a depth fault.
pub open spec fn spec_imports(
    doc: TreeModel,
    base: Seq<char>,
    budget: int,
    home: Option<Seq<char>>,
) -> Result<Seq<Result<Seq<char>, ()>>, ImportsFault> {
    match spec_import_value(doc) {
        None => Ok(Seq::empty()),
        Some(v) => {
            if !(v is Array) {
                Err(ImportsFault::BadType)
            } else if v->Array_0.len() > 0 && budget <= 0 {
                Err(ImportsFault::Depth)
            } else {
                Ok(spec_import_list(v->Array_0, base, home))
            }
        },
    }
}

/// Look a key up at the top level of a tree, when the tree is a table.
pub fn get_key<'a>(v: &'a TreeValue, k: &str) -> (r: Option<&'a TreeValue>)
    requires
        model_wf(v@),
    ensures
        match r {
            Some(t) => spec_get(v@, k@) == Some(t@) && model_wf(t@),
            None => spec_get(v@, k@) is None,
        },
{
    match v {
        TreeValue::Table(entries) => {
            let key = String::from_str(k);
            match find_key(entries, &key) {
                Some(i) => {
                    proof {
                        let em = v@->Table_0;
                        assert(em[i as int] == (entries[i as int].0@, entries[i as int].1@));
                        assert(tab_has_key(em, k@));
                        crate::merge::lemma_get_unique(em, k@, i as int);
                        assert(model_wf(em[i as int].1));
                    }
                    Some(&entries[i].1)
                },
                None => {
                    proof {
                        let em = v@->Table_0;
                        if tab_has_key(em, k@) {
                            let w = tab_index_of(em, k@);
                            assert(em[w] == (entries[w].0@, entries[w].1@));
                        }
                    }
                    None
                },
            }
        },
        _ => None,
    }
}

/// Get all import paths for a configuration.
pub fn imports(config: &TreeValue, base_path: &str, recursion_limit: u32, home_dir: Option<&str>)
    -> (r: Result<Vec<Result<String, String>>, Error>)
    requires
        model_wf(config@),
    ensures
        ({
            let home = match home_dir {
                Some(h) => Some(h@),
                None => None,
            };
            match spec_imports(config@, base_path@, recursion_limit as int, home) {
                Ok(list) => {
                    &&& r is Ok
                    &&& r->Ok_0@.len() == list.len()
                    &&& forall|i: int|
                        0 <= i < list.len() ==> match list[i] {
                            Ok(p) => (#[trigger] r->Ok_0@[i]) matches Ok(s) && s@ == p,
                            Err(_) => r->Ok_0@[i] is Err,
                        }
                },
                Err(ImportsFault::BadType) => r matches Err(Error::ImportDirective(_)),
                Err(ImportsFault::Depth) => r matches Err(Error::RecursionLimit),
            }
        }),
{
    let found: Option<&TreeValue> = match get_key(config, "import") {
        Some(v) => Some(v),
        None => match get_key(config, "general") {
            Some(g) => get_key(g, "import"),
            None => None,
        },
    };
    let items: &Vec<TreeValue> = match found {
        Some(TreeValue::Array(items)) => items,
        Some(_) => {
            return Err(
                Error::ImportDirective(
                    String::from_str("Invalid import type: expected a sequence"),
                ),
            );
        },
        None => {
            let r = Ok(Vec::new());
            proof {
                let home = match home_dir {
                    Some(h) => Some(h@),
                    None => None,
                };
                assert(spec_imports(config@, base_path@, recursion_limit as int, home)
                    matches Ok(l) && l =~= Seq::<Result<Seq<char>, ()>>::empty());
            }
            return r;
        },
    };
    if items.len() > 0 && recursion_limit == 0 {
        return Err(Error::RecursionLimit);
    }
    let ghost im = match found {
        Some(t) => t@->Array_0,
        None => Seq::empty(),
    };
    let mut out: Vec<Result<String, String>> = Vec::new();
    let mut i: usize = 0;
    while i < items.len()
        invariant
            0 <= i <= items.len(),
            im.len() == items.len(),
            forall|j: int| 0 <= j < items.len() ==> im[j] == (#[trigger] items[j])@,
            out.len() == i,
            forall|j: int|
                0 <= j < i ==> match im[j] {
                    TreeModel::Text(s) => (#[trigger] out[j]) matches Ok(p) && p@
                        == spec_normalize_import(
                        base_path@,
                        s,
                        match home_dir {
                            Some(h) => Some(h@),
                            None => None,
                        },
                    ),
                    _ => out[j] is Err,
                },
        decreases items.len() - i,
    {
        match &items[i] {
            TreeValue::Text(s) => {
                let normalized = normalize_import(base_path, s.as_str(), home_dir);
                out.push(Ok(normalized));
            },
            _ => {
                out.push(
                    Err(
                        String::from_str("Invalid import element type: expected path string"),
                    ),
                );
            },
        }
        i = i + 1;
    }
    let r = Ok(out);
    proof {
        let home = match home_dir {
            Some(h) => Some(h@),
            None => None,
        };
        let list = spec_import_list(im, base_path@, home);
        assert forall|j: int| 0 <= j < list.len() implies match list[j] {
            Ok(p) => (#[trigger] out@[j]) matches Ok(s) && s@ == p,
            Err(_) => out@[j] is Err,
        } by {
            assert(im[j] == items@[j]@);
        }
    }
    r
}

} // verus!
