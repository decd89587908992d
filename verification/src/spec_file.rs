//! Parsing of the spec file: a YAML document naming the two hosts, the
//! deploy behaviour, and the list of syncs to run.  The YAML text itself is
//! read by the yaml parser crate; the mapping from the parsed document to a
//! [`Spec`] is this module's own logic, and unknown keys, wrongly typed
//! values and missing required fields are errors.

use vstd::prelude::*;

use crate::behaviour::DeployBehaviour;
use crate::behaviour::DestEntryNeedsDeletingBehaviour;
use crate::behaviour::DestFileUpdateBehaviour;
use crate::behaviour::DestRootNeedsDeletingBehaviour;
use crate::config::Spec;
use crate::config::SyncSpec;

verus! {

use vstd::string::StrSliceExecFns;
use crate::behaviour::spec_parse_deploy;
use crate::behaviour::spec_parse_entry_deleting;
use crate::behaviour::spec_parse_file_update;
use crate::behaviour::spec_parse_root_deleting;
use crate::config::strings_view;

/// A parsed YAML value, as this module reads it: scalars, arrays and
/// dictionaries in document order.
pub enum YamlNode {
    Str(Seq<char>),
    Int(i64),
    Real(Seq<char>),
    Bool(bool),
    Arr(Seq<YamlNode>),
    Dict(Seq<(YamlNode, YamlNode)>),
    Alias,
    Null,
    Bad,
}

#[verifier::external_type_specification]
#[verifier::external_body]
pub struct ExYaml(yaml_rust::Yaml);

/// The value a yaml document node stands for; it depends on the node
/// alone.
pub uninterp spec fn yaml_node_of(y: yaml_rust::Yaml) -> YamlNode;

/// What loading a YAML source yields: its documents, or the scanner's
/// error text; a function of the source text alone.
pub uninterp spec fn yaml_documents(s: Seq<char>) -> Result<Seq<YamlNode>, Seq<char>>;

/// Relies on `yaml_rust::YamlLoader::load_from_str`, which parses a YAML
/// source into its documents or reports a scan error, deterministically in
/// the source text.
#[verifier::external_body]
fn load_yaml_documents(source: &str) -> (r: Result<Vec<yaml_rust::Yaml>, String>)
    ensures
        match r {
            Ok(docs) => yaml_documents(source@) matches Ok(ns) && ns.len() == docs@.len() && forall|
                i: int,
            | 0 <= i < docs@.len() ==> yaml_node_of(#[trigger] docs@[i]) == ns[i],
            Err(e) => yaml_documents(source@) matches Err(m) && m == e@,
        },
{
    match yaml_rust::YamlLoader::load_from_str(source) {
        Ok(docs) => Ok(docs),
        Err(e) => Err(e.to_string()),
    }
}

/// Relies on `yaml_rust::Yaml::as_str`: the string contents for a string
/// node, nothing for any other node.
#[verifier::external_body]
fn yaml_as_str<'a>(y: &'a yaml_rust::Yaml) -> (r: Option<&'a str>)
    ensures
        match r {
            Some(s) => yaml_node_of(*y) == YamlNode::Str(s@),
            None => !(yaml_node_of(*y) is Str),
        },
{
    y.as_str()
}

/// Relies on `yaml_rust::Yaml::as_hash` and the insertion-ordered
/// iteration of its linked hash map: the key/value pairs of a dictionary
/// node, in document order.
#[verifier::external_body]
fn yaml_hash_entries(y: &yaml_rust::Yaml) -> (r: Option<Vec<(yaml_rust::Yaml, yaml_rust::Yaml)>>)
    ensures
        match r {
            Some(v) => yaml_node_of(*y) matches YamlNode::Dict(entries) && entries.len()
                == v@.len() && forall|i: int|
                0 <= i < v@.len() ==> (
                yaml_node_of((#[trigger] v@[i]).0),
                yaml_node_of(v@[i].1),
                ) == entries[i],
            None => !(yaml_node_of(*y) is Dict),
        },
{
    y.as_hash().map(|h| h.iter().map(|(k, v)| (k.clone(), v.clone())).collect())
}

/// Relies on `yaml_rust::Yaml::as_vec`: the items of an array node, in
/// document order.
#[verifier::external_body]
fn yaml_array_entries<'a>(y: &'a yaml_rust::Yaml) -> (r: Option<&'a Vec<yaml_rust::Yaml>>)
    ensures
        match r {
            Some(v) => yaml_node_of(*y) matches YamlNode::Arr(items) && items.len() == v@.len()
                && forall|i: int|
                0 <= i < v@.len() ==> yaml_node_of(#[trigger] v@[i]) == items[i],
            None => !(yaml_node_of(*y) is Arr),
        },
{
    y.as_vec()
}

/// Exact string equality.
pub fn str_equal(a: &str, b: &str) -> (r: bool)
    ensures
        r == (a@ == b@),
{
    let an = a.unicode_len();
    let bn = b.unicode_len();
    if an != bn {
        proof {
            assert(a@ != b@);
        }
        return false;
    }
    let mut i: usize = 0;
    while i < an
        invariant
            0 <= i <= an,
            an == a@.len(),
            an == b@.len(),
            forall|k: int| 0 <= k < i ==> a@[k] == b@[k],
        decreases an - i,
    {
        if a.get_char(i) != b.get_char(i) {
            proof {
                assert(a@ != b@);
            }
            return false;
        }
        i += 1;
    }
    proof {
        assert(a@ =~= b@);
    }
    true
}

/// The mathematical shape of a parsed sync entry.
pub struct SyncV {
    pub src: Seq<char>,
    pub dest: Seq<char>,
    pub filters: Seq<Seq<char>>,
    pub dest_file_newer_behaviour: DestFileUpdateBehaviour,
    pub dest_file_older_behaviour: DestFileUpdateBehaviour,
    pub files_same_time_behaviour: DestFileUpdateBehaviour,
    pub dest_entry_needs_deleting_behaviour: DestEntryNeedsDeletingBehaviour,
    pub dest_root_needs_deleting_behaviour: DestRootNeedsDeletingBehaviour,
}

/// The mathematical shape of a parsed spec file.
pub struct SpecV {
    pub src_hostname: Seq<char>,
    pub src_username: Seq<char>,
    pub dest_hostname: Seq<char>,
    pub dest_username: Seq<char>,
    pub deploy_behaviour: DeployBehaviour,
    pub syncs: Seq<SyncV>,
}

/// How a parsed sync relates to its mathematical shape.
pub open spec fn sync_matches(s: SyncSpec, v: SyncV) -> bool {
    &&& s.src@ == v.src
    &&& s.dest@ == v.dest
    &&& strings_view(s.filters@) == v.filters
    &&& s.dest_file_newer_behaviour == v.dest_file_newer_behaviour
    &&& s.dest_file_older_behaviour == v.dest_file_older_behaviour
    &&& s.files_same_time_behaviour == v.files_same_time_behaviour
    &&& s.dest_entry_needs_deleting_behaviour == v.dest_entry_needs_deleting_behaviour
    &&& s.dest_root_needs_deleting_behaviour == v.dest_root_needs_deleting_behaviour
}

/// How a parsed spec relates to its mathematical shape.
pub open spec fn spec_matches(s: Spec, v: SpecV) -> bool {
    &&& s.src_hostname@ == v.src_hostname
    &&& s.src_username@ == v.src_username
    &&& s.dest_hostname@ == v.dest_hostname
    &&& s.dest_username@ == v.dest_username
    &&& s.deploy_behaviour == v.deploy_behaviour
    &&& s.syncs@.len() == v.syncs.len()
    &&& forall|k: int| 0 <= k < v.syncs.len() ==> sync_matches(#[trigger] s.syncs@[k], v.syncs[k])
}

/// The default mathematical sync shape.
pub open spec fn sync_v_default() -> SyncV {
    SyncV {
        src: Seq::empty(),
        dest: Seq::empty(),
        filters: Seq::empty(),
        dest_file_newer_behaviour: DestFileUpdateBehaviour::Prompt,
        dest_file_older_behaviour: DestFileUpdateBehaviour::Overwrite,
        files_same_time_behaviour: DestFileUpdateBehaviour::Skip,
        dest_entry_needs_deleting_behaviour: DestEntryNeedsDeletingBehaviour::Delete,
        dest_root_needs_deleting_behaviour: DestRootNeedsDeletingBehaviour::Prompt,
    }
}

/// The default mathematical spec shape.
pub open spec fn spec_v_default() -> SpecV {
    SpecV {
        src_hostname: Seq::empty(),
        src_username: Seq::empty(),
        dest_hostname: Seq::empty(),
        dest_username: Seq::empty(),
        deploy_behaviour: DeployBehaviour::Prompt,
        syncs: Seq::empty(),
    }
}

/// The filter strings of a `filters` array: every item must be a string.
pub open spec fn spec_filters_of(items: Seq<YamlNode>) -> Option<Seq<Seq<char>>>
    decreases items.len(),
{
    if items.len() == 0 {
        Some(Seq::empty())
    } else {
        match items[0] {
            YamlNode::Str(s) => match spec_filters_of(items.drop_first()) {
                Some(rest) => Some(seq![s] + rest),
                None => None,
            },
            _ => None,
        }
    }
}

/// One key of a sync entry applied to the accumulated sync: `None` is a
/// rejected key or value.
pub open spec fn spec_apply_sync_key(k: YamlNode, v: YamlNode, acc: SyncV) -> Option<SyncV> {
    match k {
        YamlNode::Str(key) => {
            if key == "src"@ {
                match v {
                    YamlNode::Str(s) => Some(SyncV { src: s, ..acc }),
                    _ => None,
                }
            } else if key == "dest"@ {
                match v {
                    YamlNode::Str(s) => Some(SyncV { dest: s, ..acc }),
                    _ => None,
                }
            } else if key == "filters"@ {
                match v {
                    YamlNode::Arr(items) => match spec_filters_of(items) {
                        Some(fs) => Some(SyncV { filters: fs, ..acc }),
                        None => None,
                    },
                    _ => None,
                }
            } else if key == "dest_file_newer_behaviour"@ {
                match v {
                    YamlNode::Str(s) => match spec_parse_file_update(s) {
                        Some(b) => Some(SyncV { dest_file_newer_behaviour: b, ..acc }),
                        None => None,
                    },
                    _ => None,
                }
            } else if key == "dest_file_older_behaviour"@ {
                match v {
                    YamlNode::Str(s) => match spec_parse_file_update(s) {
                        Some(b) => Some(SyncV { dest_file_older_behaviour: b, ..acc }),
                        None => None,
                    },
                    _ => None,
                }
            } else if key == "files_same_time_behaviour"@ {
                match v {
                    YamlNode::Str(s) => match spec_parse_file_update(s) {
                        Some(b) => Some(SyncV { files_same_time_behaviour: b, ..acc }),
                        None => None,
                    },
                    _ => None,
                }
            } else if key == "dest_entry_needs_deleting_behaviour"@ {
                match v {
                    YamlNode::Str(s) => match spec_parse_entry_deleting(s) {
                        Some(b) => Some(SyncV { dest_entry_needs_deleting_behaviour: b, ..acc }),
                        None => None,
                    },
                    _ => None,
                }
            } else if key == "dest_root_needs_deleting_behaviour"@ {
                match v {
                    YamlNode::Str(s) => match spec_parse_root_deleting(s) {
                        Some(b) => Some(SyncV { dest_root_needs_deleting_behaviour: b, ..acc }),
                        None => None,
                    },
                    _ => None,
                }
            } else {
                None
            }
        },
        _ => None,
    }
}

/// The keys of a sync entry folded in order over the accumulated sync.
pub open spec fn spec_fold_sync(entries: Seq<(YamlNode, YamlNode)>, acc: SyncV) -> Option<SyncV>
    decreases entries.len(),
{
    if entries.len() == 0 {
        Some(acc)
    } else {
        match spec_apply_sync_key(entries[0].0, entries[0].1, acc) {
            Some(acc2) => spec_fold_sync(entries.drop_first(), acc2),
            None => None,
        }
    }
}

/// A whole sync entry: a dictionary folded over the defaults, whose final
/// source and destination must be nonempty.
pub open spec fn spec_parse_sync(n: YamlNode) -> Option<SyncV> {
    match n {
        YamlNode::Dict(entries) => match spec_fold_sync(entries, sync_v_default()) {
            Some(v) => {
                if v.src.len() > 0 && v.dest.len() > 0 {
                    Some(v)
                } else {
                    None
                }
            },
            None => None,
        },
        _ => None,
    }
}

/// The syncs of a `syncs` array: every item must parse as a sync entry.
pub open spec fn spec_syncs_of(items: Seq<YamlNode>) -> Option<Seq<SyncV>>
    decreases items.len(),
{
    if items.len() == 0 {
        Some(Seq::empty())
    } else {
        match spec_parse_sync(items[0]) {
            Some(v) => match spec_syncs_of(items.drop_first()) {
                Some(rest) => Some(seq![v] + rest),
                None => None,
            },
            None => None,
        }
    }
}

/// One key of the root dictionary applied to the accumulated spec.
pub open spec fn spec_apply_root_key(k: YamlNode, v: YamlNode, acc: SpecV) -> Option<SpecV> {
    match k {
        YamlNode::Str(key) => {
            if key == "src_hostname"@ {
                match v {
                    YamlNode::Str(s) => Some(SpecV { src_hostname: s, ..acc }),
                    _ => None,
                }
            } else if key == "src_username"@ {
                match v {
                    YamlNode::Str(s) => Some(SpecV { src_username: s, ..acc }),
                    _ => None,
                }
            } else if key == "dest_hostname"@ {
                match v {
                    YamlNode::Str(s) => Some(SpecV { dest_hostname: s, ..acc }),
                    _ => None,
                }
            } else if key == "dest_username"@ {
                match v {
                    YamlNode::Str(s) => Some(SpecV { dest_username: s, ..acc }),
                    _ => None,
                }
            } else if key == "deploy_behaviour"@ {
                match v {
                    YamlNode::Str(s) => match spec_parse_deploy(s) {
                        Some(b) => Some(SpecV { deploy_behaviour: b, ..acc }),
                        None => None,
                    },
                    _ => None,
                }
            } else if key == "syncs"@ {
                match v {
                    YamlNode::Arr(items) => match spec_syncs_of(items) {
                        Some(ss) => Some(SpecV { syncs: ss, ..acc }),
                        None => None,
                    },
                    _ => None,
                }
            } else {
                None
            }
        },
        _ => None,
    }
}

/// The keys of the root dictionary folded in order over the defaults.
pub open spec fn spec_fold_root(entries: Seq<(YamlNode, YamlNode)>, acc: SpecV) -> Option<SpecV>
    decreases entries.len(),
{
    if entries.len() == 0 {
        Some(acc)
    } else {
        match spec_apply_root_key(entries[0].0, entries[0].1, acc) {
            Some(acc2) => spec_fold_root(entries.drop_first(), acc2),
            None => None,
        }
    }
}

/// The whole document: its root must be a dictionary of known keys.
pub open spec fn spec_parse_spec(docs: Seq<YamlNode>) -> Option<SpecV> {
    if docs.len() < 1 {
        None
    } else {
        match docs[0] {
            YamlNode::Dict(entries) => spec_fold_root(entries, spec_v_default()),
            _ => None,
        }
    }
}


/// The mathematical shape of an in-memory sync entry.
pub open spec fn sync_view(s: SyncSpec) -> SyncV {
    SyncV {
        src: s.src@,
        dest: s.dest@,
        filters: strings_view(s.filters@),
        dest_file_newer_behaviour: s.dest_file_newer_behaviour,
        dest_file_older_behaviour: s.dest_file_older_behaviour,
        files_same_time_behaviour: s.files_same_time_behaviour,
        dest_entry_needs_deleting_behaviour: s.dest_entry_needs_deleting_behaviour,
        dest_root_needs_deleting_behaviour: s.dest_root_needs_deleting_behaviour,
    }
}

/// The error for a value of the wrong type under a known key.
fn unexpected_value(key_name: &str, expected: &str) -> (r: String)
    ensures
        r@.len() >= 0,
{
    let mut msg = "Unexpected value for '".to_owned();
    msg.append(key_name);
    msg.append("'. Expected ");
    msg.append(expected);
    msg
}

/// The filter strings of a `filters` array value.
fn parse_filters(v: &yaml_rust::Yaml) -> (r: Result<Vec<String>, String>)
    ensures
        match yaml_node_of(*v) {
            YamlNode::Arr(items) => match spec_filters_of(items) {
                Some(fs) => r matches Ok(x) && strings_view(x@) == fs,
                None => r is Err,
            },
            _ => r is Err,
        },
{
    let items = match yaml_array_entries(v) {
        Some(items) => items,
        None => {
            return Err(unexpected_value("filters", "an array"));
        },
    };
    let ghost itemsv = yaml_node_of(*v)->Arr_0;
    let mut out: Vec<String> = Vec::new();
    let mut i: usize = 0;
    proof {
        assert(itemsv.skip(0) =~= itemsv);
        assert(strings_view(out@) =~= Seq::<Seq<char>>::empty());
        if spec_filters_of(itemsv) is Some {
            let fs = spec_filters_of(itemsv)->0;
            assert(Seq::<Seq<char>>::empty() + fs =~= fs);
        }
    }
    while i < items.len()
        invariant
            0 <= i <= items@.len(),
            yaml_node_of(*v) is Arr,
            yaml_node_of(*v)->Arr_0 == itemsv,
            itemsv.len() == items@.len(),
            forall|k: int| 0 <= k < items@.len() ==> yaml_node_of(#[trigger] items@[k]) == itemsv[k],
            match spec_filters_of(itemsv.skip(i as int)) {
                Some(rest) => spec_filters_of(itemsv) == Some(strings_view(out@) + rest),
                None => spec_filters_of(itemsv) is None,
            },
        decreases items@.len() - i,
    {
        proof {
            assert(itemsv.skip(i as int)[0] == itemsv[i as int]);
            assert(itemsv.skip(i as int).drop_first() =~= itemsv.skip(i as int + 1));
        }
        match yaml_as_str(&items[i]) {
            Some(text) => {
                let ghost before = strings_view(out@);
                out.push(text.to_owned());
                proof {
                    assert(strings_view(out@) =~= before.push(text@));
                    if spec_filters_of(itemsv.skip(i as int + 1)) is Some {
                        let rest = spec_filters_of(itemsv.skip(i as int + 1))->0;
                        assert(before.push(text@) + rest =~= before + (seq![text@] + rest));
                    }
                }
            },
            None => {
                return Err(
                    "Unexpected value in 'filters' array. Expected a string".to_owned(),
                );
            },
        }
        i += 1;
    }
    proof {
        assert(itemsv.skip(itemsv.len() as int).len() == 0);
        if spec_filters_of(itemsv) is Some {
            assert(strings_view(out@) + Seq::<Seq<char>>::empty() =~= strings_view(out@));
        }
    }
    Ok(out)
}

/// One sync entry of the `syncs` list: a dictionary of known keys over the
/// defaults, whose source and destination must come out nonempty.
pub fn parse_sync_entry(y: &yaml_rust::Yaml) -> (r: Result<SyncSpec, String>)
    ensures
        match spec_parse_sync(yaml_node_of(*y)) {
            Some(v) => r matches Ok(s) && sync_matches(s, v),
            None => r is Err,
        },
{
    let entries = match yaml_hash_entries(y) {
        Some(e) => e,
        None => {
            return Err("Sync value must be a dictionary".to_owned());
        },
    };
    let ghost entriesv = yaml_node_of(*y)->Dict_0;
    let mut acc = SyncSpec::default();
    proof {
        assert(strings_view(acc.filters@) =~= Seq::<Seq<char>>::empty());
        assert(sync_view(acc) == sync_v_default());
        assert(entriesv.skip(0) =~= entriesv);
    }
    let mut i: usize = 0;
    while i < entries.len()
        invariant
            0 <= i <= entries@.len(),
            yaml_node_of(*y) is Dict,
            yaml_node_of(*y)->Dict_0 == entriesv,
            entriesv.len() == entries@.len(),
            forall|k: int|
                0 <= k < entries@.len() ==> (
                yaml_node_of((#[trigger] entries@[k]).0),
                yaml_node_of(entries@[k].1),
                ) == entriesv[k],
            spec_fold_sync(entriesv, sync_v_default()) == spec_fold_sync(
                entriesv.skip(i as int),
                sync_view(acc),
            ),
        decreases entries@.len() - i,
    {
        proof {
            assert(entriesv.skip(i as int)[0] == entriesv[i as int]);
            assert(entriesv.skip(i as int).drop_first() =~= entriesv.skip(i as int + 1));
        }
        let pair = &entries[i];
        let key = match yaml_as_str(&pair.0) {
            Some(k) => k,
            None => {
                return Err("Unexpected key in 'syncs' entry".to_owned());
            },
        };
        if str_equal(key, "src") {
            match yaml_as_str(&pair.1) {
                Some(text) => {
                    acc.src = text.to_owned();
                },
                None => {
                    return Err(unexpected_value("src", "a string"));
                },
            }
        } else if str_equal(key, "dest") {
            match yaml_as_str(&pair.1) {
                Some(text) => {
                    acc.dest = text.to_owned();
                },
                None => {
                    return Err(unexpected_value("dest", "a string"));
                },
            }
        } else if str_equal(key, "filters") {
            match parse_filters(&pair.1) {
                Ok(fs) => {
                    acc.filters = fs;
                },
                Err(e) => {
                    return Err(e);
                },
            }
        } else if str_equal(key, "dest_file_newer_behaviour") {
            let text = match yaml_as_str(&pair.1) {
                Some(t) => t,
                None => {
                    return Err(unexpected_value("dest_file_newer_behaviour", "a string"));
                },
            };
            match DestFileUpdateBehaviour::from_str(text) {
                Ok(b) => {
                    acc.dest_file_newer_behaviour = b;
                },
                Err(e) => {
                    return Err(e);
                },
            }
        } else if str_equal(key, "dest_file_older_behaviour") {
            let text = match yaml_as_str(&pair.1) {
                Some(t) => t,
                None => {
                    return Err(unexpected_value("dest_file_older_behaviour", "a string"));
                },
            };
            match DestFileUpdateBehaviour::from_str(text) {
                Ok(b) => {
                    acc.dest_file_older_behaviour = b;
                },
                Err(e) => {
                    return Err(e);
                },
            }
        } else if str_equal(key, "files_same_time_behaviour") {
            let text = match yaml_as_str(&pair.1) {
                Some(t) => t,
                None => {
                    return Err(unexpected_value("files_same_time_behaviour", "a string"));
                },
            };
            match DestFileUpdateBehaviour::from_str(text) {
                Ok(b) => {
                    acc.files_same_time_behaviour = b;
                },
                Err(e) => {
                    return Err(e);
                },
            }
        } else if str_equal(key, "dest_entry_needs_deleting_behaviour") {
            let text = match yaml_as_str(&pair.1) {
                Some(t) => t,
                None => {
                    return Err(
                        unexpected_value("dest_entry_needs_deleting_behaviour", "a string"),
                    );
                },
            };
            match DestEntryNeedsDeletingBehaviour::from_str(text) {
                Ok(b) => {
                    acc.dest_entry_needs_deleting_behaviour = b;
                },
                Err(e) => {
                    return Err(e);
                },
            }
        } else if str_equal(key, "dest_root_needs_deleting_behaviour") {
            let text = match yaml_as_str(&pair.1) {
                Some(t) => t,
                None => {
                    return Err(
                        unexpected_value("dest_root_needs_deleting_behaviour", "a string"),
                    );
                },
            };
            match DestRootNeedsDeletingBehaviour::from_str(text) {
                Ok(b) => {
                    acc.dest_root_needs_deleting_behaviour = b;
                },
                Err(e) => {
                    return Err(e);
                },
            }
        } else {
            return Err("Unexpected key in 'syncs' entry".to_owned());
        }
        i += 1;
    }
    proof {
        assert(entriesv.skip(entriesv.len() as int).len() == 0);
    }
    if acc.src.as_str().unicode_len() == 0 {
        return Err("src must be provided and non-empty".to_owned());
    }
    if acc.dest.as_str().unicode_len() == 0 {
        return Err("dest must be provided and non-empty".to_owned());
    }
    Ok(acc)
}

/// The sync entries of the `syncs` array value.
fn parse_syncs(v: &yaml_rust::Yaml) -> (r: Result<Vec<SyncSpec>, String>)
    ensures
        match yaml_node_of(*v) {
            YamlNode::Arr(items) => match spec_syncs_of(items) {
                Some(ss) => r matches Ok(x) && x@.len() == ss.len() && (forall|k: int|
                    0 <= k < ss.len() ==> sync_matches(#[trigger] x@[k], ss[k])),
                None => r is Err,
            },
            _ => r is Err,
        },
{
    let items = match yaml_array_entries(v) {
        Some(items) => items,
        None => {
            return Err(unexpected_value("syncs", "an array"));
        },
    };
    let ghost itemsv = yaml_node_of(*v)->Arr_0;
    let mut out: Vec<SyncSpec> = Vec::new();
    let ghost mut vs: Seq<SyncV> = Seq::empty();
    let mut i: usize = 0;
    proof {
        assert(itemsv.skip(0) =~= itemsv);
        if spec_syncs_of(itemsv) is Some {
            let ss = spec_syncs_of(itemsv)->0;
            assert(vs + ss =~= ss);
        }
    }
    while i < items.len()
        invariant
            0 <= i <= items@.len(),
            yaml_node_of(*v) is Arr,
            yaml_node_of(*v)->Arr_0 == itemsv,
            itemsv.len() == items@.len(),
            forall|k: int| 0 <= k < items@.len() ==> yaml_node_of(#[trigger] items@[k]) == itemsv[k],
            vs.len() == out@.len(),
            forall|k: int| 0 <= k < vs.len() ==> sync_matches(#[trigger] out@[k], vs[k]),
            match spec_syncs_of(itemsv.skip(i as int)) {
                Some(rest) => spec_syncs_of(itemsv) == Some(vs + rest),
                None => spec_syncs_of(itemsv) is None,
            },
        decreases items@.len() - i,
    {
        proof {
            assert(itemsv.skip(i as int)[0] == itemsv[i as int]);
            assert(itemsv.skip(i as int).drop_first() =~= itemsv.skip(i as int + 1));
        }
        match parse_sync_entry(&items[i]) {
            Ok(sync) => {
                proof {
                    let v0 = spec_parse_sync(itemsv[i as int])->0;
                    if spec_syncs_of(itemsv.skip(i as int + 1)) is Some {
                        let rest = spec_syncs_of(itemsv.skip(i as int + 1))->0;
                        assert(vs.push(v0) + rest =~= vs + (seq![v0] + rest));
                    }
                    vs = vs.push(v0);
                }
                out.push(sync);
            },
            Err(e) => {
                return Err(e);
            },
        }
        i += 1;
    }
    proof {
        assert(itemsv.skip(itemsv.len() as int).len() == 0);
        if spec_syncs_of(itemsv) is Some {
            assert(vs + Seq::<SyncV>::empty() =~= vs);
        }
    }
    Ok(out)
}

/// Parses the text of a spec file.
///
/// The text must scan as YAML with at least one document (further
/// documents are ignored); the first document's root must be a dictionary
/// of the known keys, each with a value of the right type; each sync of
/// `syncs` must name a nonempty source and destination.  Anything else is
/// an error.
pub fn parse_spec_text(source: &str) -> (r: Result<Spec, String>)
    ensures
        match yaml_documents(source@) {
            Err(m) => r matches Err(e) && e@ == m,
            Ok(docs) => match spec_parse_spec(docs) {
                Some(v) => r matches Ok(s) && spec_matches(s, v),
                None => r is Err,
            },
        },
{
    let docs = match load_yaml_documents(source) {
        Ok(d) => d,
        Err(e) => {
            return Err(e);
        },
    };
    if docs.len() < 1 {
        return Err("Expected at least one YAML document".to_owned());
    }
    let root = &docs[0];
    let entries = match yaml_hash_entries(root) {
        Some(e) => e,
        None => {
            return Err("Document root must be a dictionary".to_owned());
        },
    };
    let ghost entriesv = yaml_node_of(*root)->Dict_0;
    let mut acc = Spec::default();
    proof {
        assert(SpecV {
            src_hostname: acc.src_hostname@,
            src_username: acc.src_username@,
            dest_hostname: acc.dest_hostname@,
            dest_username: acc.dest_username@,
            deploy_behaviour: acc.deploy_behaviour,
            syncs: Seq::empty(),
        } == spec_v_default());
        assert(entriesv.skip(0) =~= entriesv);
    }
    let ghost mut accv: SpecV = spec_v_default();
    let mut i: usize = 0;
    while i < entries.len()
        invariant
            0 <= i <= entries@.len(),
            yaml_documents(source@) is Ok,
            yaml_documents(source@)->Ok_0.len() >= 1,
            yaml_documents(source@)->Ok_0[0] == yaml_node_of(*root),
            yaml_node_of(*root) is Dict,
            yaml_node_of(*root)->Dict_0 == entriesv,
            entriesv.len() == entries@.len(),
            forall|k: int|
                0 <= k < entries@.len() ==> (
                yaml_node_of((#[trigger] entries@[k]).0),
                yaml_node_of(entries@[k].1),
                ) == entriesv[k],
            acc.src_hostname@ == accv.src_hostname,
            acc.src_username@ == accv.src_username,
            acc.dest_hostname@ == accv.dest_hostname,
            acc.dest_username@ == accv.dest_username,
            acc.deploy_behaviour == accv.deploy_behaviour,
            acc.syncs@.len() == accv.syncs.len(),
            forall|k: int|
                0 <= k < accv.syncs.len() ==> sync_matches(#[trigger] acc.syncs@[k], accv.syncs[k]),
            spec_fold_root(entriesv, spec_v_default()) == spec_fold_root(
                entriesv.skip(i as int),
                accv,
            ),
        decreases entries@.len() - i,
    {
        proof {
            assert(entriesv.skip(i as int)[0] == entriesv[i as int]);
            assert(entriesv.skip(i as int).drop_first() =~= entriesv.skip(i as int + 1));
        }
        let pair = &entries[i];
        let key = match yaml_as_str(&pair.0) {
            Some(k) => k,
            None => {
                return Err("Unexpected key in root dictionary".to_owned());
            },
        };
        if str_equal(key, "src_hostname") {
            match yaml_as_str(&pair.1) {
                Some(text) => {
                    acc.src_hostname = text.to_owned();
                    proof {
                        accv = SpecV { src_hostname: text@, ..accv };
                    }
                },
                None => {
                    return Err(unexpected_value("src_hostname", "a string"));
                },
            }
        } else if str_equal(key, "src_username") {
            match yaml_as_str(&pair.1) {
                Some(text) => {
                    acc.src_username = text.to_owned();
                    proof {
                        accv = SpecV { src_username: text@, ..accv };
                    }
                },
                None => {
                    return Err(unexpected_value("src_username", "a string"));
                },
            }
        } else if str_equal(key, "dest_hostname") {
            match yaml_as_str(&pair.1) {
                Some(text) => {
                    acc.dest_hostname = text.to_owned();
                    proof {
                        accv = SpecV { dest_hostname: text@, ..accv };
                    }
                },
                None => {
                    return Err(unexpected_value("dest_hostname", "a string"));
                },
            }
        } else if str_equal(key, "dest_username") {
            match yaml_as_str(&pair.1) {
                Some(text) => {
                    acc.dest_username = text.to_owned();
                    proof {
                        accv = SpecV { dest_username: text@, ..accv };
                    }
                },
                None => {
                    return Err(unexpected_value("dest_username", "a string"));
                },
            }
        } else if str_equal(key, "deploy_behaviour") {
            let text = match yaml_as_str(&pair.1) {
                Some(t) => t,
                None => {
                    return Err(unexpected_value("deploy_behaviour", "a string"));
                },
            };
            match DeployBehaviour::from_str(text) {
                Ok(b) => {
                    acc.deploy_behaviour = b;
                    proof {
                        accv = SpecV { deploy_behaviour: b, ..accv };
                    }
                },
                Err(e) => {
                    return Err(e);
                },
            }
        } else if str_equal(key, "syncs") {
            match parse_syncs(&pair.1) {
                Ok(syncs) => {
                    acc.syncs = syncs;
                    proof {
                        let items = yaml_node_of(pair.1)->Arr_0;
                        accv = SpecV { syncs: spec_syncs_of(items)->0, ..accv };
                    }
                },
                Err(e) => {
                    return Err(e);
                },
            }
        } else {
            return Err("Unexpected key in root dictionary".to_owned());
        }
        i += 1;
    }
    proof {
        assert(entriesv.skip(entriesv.len() as int).len() == 0);
    }
    Ok(acc)
}

} // verus!
