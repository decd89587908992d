//! The configuration of a run: what to sync, between which hosts, and
//! under which behaviours; and the merging of a spec file with the
//! command-line arguments that may override it.

use vstd::prelude::*;

use crate::behaviour::AllDestructiveBehaviour;
use crate::behaviour::DeployBehaviour;
use crate::behaviour::DestEntryNeedsDeletingBehaviour;
use crate::behaviour::DestFileUpdateBehaviour;
use crate::behaviour::DestRootNeedsDeletingBehaviour;
use crate::remote_path::RemotePathDesc;

verus! {

use crate::behaviour::spec_all_as_entry_deleting;
use crate::behaviour::spec_all_as_file_update;
use crate::behaviour::spec_all_as_root_deleting;

/// One sync of a run: a source, a destination, filters and behaviours.
#[derive(Debug, PartialEq, Eq)]
pub struct SyncSpec {
    pub src: String,
    pub dest: String,
    pub filters: Vec<String>,
    pub dest_file_newer_behaviour: DestFileUpdateBehaviour,
    pub dest_file_older_behaviour: DestFileUpdateBehaviour,
    pub files_same_time_behaviour: DestFileUpdateBehaviour,
    pub dest_entry_needs_deleting_behaviour: DestEntryNeedsDeletingBehaviour,
    pub dest_root_needs_deleting_behaviour: DestRootNeedsDeletingBehaviour,
}

impl Default for SyncSpec {
    /// A sync with everything at its default: no filters, prompt before
    /// overwriting newer destination files, overwrite older ones, skip
    /// files with equal times, delete extraneous entries, and prompt
    /// before replacing the destination root.
    fn default() -> (r: Self)
        ensures
            r.src@ == Seq::<char>::empty(),
            r.dest@ == Seq::<char>::empty(),
            r.filters@ == Seq::<String>::empty(),
            r.dest_file_newer_behaviour == DestFileUpdateBehaviour::Prompt,
            r.dest_file_older_behaviour == DestFileUpdateBehaviour::Overwrite,
            r.files_same_time_behaviour == DestFileUpdateBehaviour::Skip,
            r.dest_entry_needs_deleting_behaviour == DestEntryNeedsDeletingBehaviour::Delete,
            r.dest_root_needs_deleting_behaviour == DestRootNeedsDeletingBehaviour::Prompt,
    {
        let r = SyncSpec {
            src: String::new(),
            dest: String::new(),
            filters: Vec::new(),
            dest_file_newer_behaviour: DestFileUpdateBehaviour::Prompt,
            dest_file_older_behaviour: DestFileUpdateBehaviour::Overwrite,
            files_same_time_behaviour: DestFileUpdateBehaviour::Skip,
            dest_entry_needs_deleting_behaviour: DestEntryNeedsDeletingBehaviour::Delete,
            dest_root_needs_deleting_behaviour: DestRootNeedsDeletingBehaviour::Prompt,
        };
        proof {
            assert(r.filters@ =~= Seq::<String>::empty());
        }
        r
    }
}

/// What a whole run syncs.  The hostnames and usernames are fixed for the
/// run as a whole; the individual syncs share the same pair of hosts.
#[derive(Debug, PartialEq, Eq)]
pub struct Spec {
    pub src_hostname: String,
    pub src_username: String,
    pub dest_hostname: String,
    pub dest_username: String,
    pub deploy_behaviour: DeployBehaviour,
    pub syncs: Vec<SyncSpec>,
}

impl Default for Spec {
    /// A run with no hosts, deploy resolved by prompting, and no syncs.
    fn default() -> (r: Self)
        ensures
            r.src_hostname@ == Seq::<char>::empty(),
            r.src_username@ == Seq::<char>::empty(),
            r.dest_hostname@ == Seq::<char>::empty(),
            r.dest_username@ == Seq::<char>::empty(),
            r.deploy_behaviour == DeployBehaviour::Prompt,
            r.syncs@ == Seq::<SyncSpec>::empty(),
    {
        let r = Spec {
            src_hostname: String::new(),
            src_username: String::new(),
            dest_hostname: String::new(),
            dest_username: String::new(),
            deploy_behaviour: DeployBehaviour::Prompt,
            syncs: Vec::new(),
        };
        proof {
            assert(r.syncs@ =~= Seq::<SyncSpec>::empty());
        }
        r
    }
}

/// The command-line arguments that decide or override what is synced.
#[derive(Debug, Default)]
pub struct CliOptions {
    /// The source, when given directly rather than through a spec file.
    pub src: Option<RemotePathDesc>,
    /// The destination, when given directly.
    pub dest: Option<RemotePathDesc>,
    /// Filters, which replace the filters of every sync when nonempty.
    pub filter: Vec<String>,
    /// Overrides of the individual behaviours.
    pub deploy: Option<DeployBehaviour>,
    pub dest_file_newer: Option<DestFileUpdateBehaviour>,
    pub dest_file_older: Option<DestFileUpdateBehaviour>,
    pub files_same_time: Option<DestFileUpdateBehaviour>,
    pub dest_entry_needs_deleting: Option<DestEntryNeedsDeletingBehaviour>,
    pub dest_root_needs_deleting: Option<DestRootNeedsDeletingBehaviour>,
    /// The blanket destructive-behaviour override.  It never overrides a
    /// behaviour already set to skip, since such an action was not going
    /// to destroy anything anyway; and an individual override beats it.
    pub all_destructive_behaviour: Option<AllDestructiveBehaviour>,
}

/// The file-update behaviour after the blanket and individual overrides.
pub open spec fn spec_resolve_file_update(
    base: DestFileUpdateBehaviour,
    all: Option<AllDestructiveBehaviour>,
    individual: Option<DestFileUpdateBehaviour>,
) -> DestFileUpdateBehaviour {
    let blanket = if base != DestFileUpdateBehaviour::Skip && all is Some {
        spec_all_as_file_update(all->0)
    } else {
        base
    };
    if individual is Some {
        individual->0
    } else {
        blanket
    }
}

/// The entry-deleting behaviour after the blanket and individual
/// overrides.
pub open spec fn spec_resolve_entry_deleting(
    base: DestEntryNeedsDeletingBehaviour,
    all: Option<AllDestructiveBehaviour>,
    individual: Option<DestEntryNeedsDeletingBehaviour>,
) -> DestEntryNeedsDeletingBehaviour {
    let blanket = if base != DestEntryNeedsDeletingBehaviour::Skip && all is Some {
        spec_all_as_entry_deleting(all->0)
    } else {
        base
    };
    if individual is Some {
        individual->0
    } else {
        blanket
    }
}

/// The root-deleting behaviour after the blanket and individual overrides.
pub open spec fn spec_resolve_root_deleting(
    base: DestRootNeedsDeletingBehaviour,
    all: Option<AllDestructiveBehaviour>,
    individual: Option<DestRootNeedsDeletingBehaviour>,
) -> DestRootNeedsDeletingBehaviour {
    let blanket = if base != DestRootNeedsDeletingBehaviour::Skip && all is Some {
        spec_all_as_root_deleting(all->0)
    } else {
        base
    };
    if individual is Some {
        individual->0
    } else {
        blanket
    }
}

/// The deep view of a list of strings.
pub open spec fn strings_view(v: Seq<String>) -> Seq<Seq<char>> {
    v.map_values(|s: String| s@)
}

/// How one resolved sync relates to its pre-override form and the
/// arguments.
pub open spec fn spec_sync_resolved(r: SyncSpec, base: SyncSpec, args: CliOptions) -> bool {
    &&& r.src@ == base.src@
    &&& r.dest@ == base.dest@
    &&& strings_view(r.filters@) == (if args.filter@.len() > 0 {
        strings_view(args.filter@)
    } else {
        strings_view(base.filters@)
    })
    &&& r.dest_file_newer_behaviour == spec_resolve_file_update(
        base.dest_file_newer_behaviour,
        args.all_destructive_behaviour,
        args.dest_file_newer,
    )
    &&& r.dest_file_older_behaviour == spec_resolve_file_update(
        base.dest_file_older_behaviour,
        args.all_destructive_behaviour,
        args.dest_file_older,
    )
    &&& r.files_same_time_behaviour == spec_resolve_file_update(
        base.files_same_time_behaviour,
        args.all_destructive_behaviour,
        args.files_same_time,
    )
    &&& r.dest_entry_needs_deleting_behaviour == spec_resolve_entry_deleting(
        base.dest_entry_needs_deleting_behaviour,
        args.all_destructive_behaviour,
        args.dest_entry_needs_deleting,
    )
    &&& r.dest_root_needs_deleting_behaviour == spec_resolve_root_deleting(
        base.dest_root_needs_deleting_behaviour,
        args.all_destructive_behaviour,
        args.dest_root_needs_deleting,
    )
}

/// How the single sync built from direct source and destination arguments
/// relates to those arguments after the overrides.
pub open spec fn spec_direct_sync_resolved(
    r: SyncSpec,
    src_path: Seq<char>,
    dest_path: Seq<char>,
    args: CliOptions,
) -> bool {
    &&& r.src@ == src_path
    &&& r.dest@ == dest_path
    &&& strings_view(r.filters@) == (if args.filter@.len() > 0 {
        strings_view(args.filter@)
    } else {
        Seq::<Seq<char>>::empty()
    })
    &&& r.dest_file_newer_behaviour == spec_resolve_file_update(
        DestFileUpdateBehaviour::Prompt,
        args.all_destructive_behaviour,
        args.dest_file_newer,
    )
    &&& r.dest_file_older_behaviour == spec_resolve_file_update(
        DestFileUpdateBehaviour::Overwrite,
        args.all_destructive_behaviour,
        args.dest_file_older,
    )
    &&& r.files_same_time_behaviour == spec_resolve_file_update(
        DestFileUpdateBehaviour::Skip,
        args.all_destructive_behaviour,
        args.files_same_time,
    )
    &&& r.dest_entry_needs_deleting_behaviour == spec_resolve_entry_deleting(
        DestEntryNeedsDeletingBehaviour::Delete,
        args.all_destructive_behaviour,
        args.dest_entry_needs_deleting,
    )
    &&& r.dest_root_needs_deleting_behaviour == spec_resolve_root_deleting(
        DestRootNeedsDeletingBehaviour::Prompt,
        args.all_destructive_behaviour,
        args.dest_root_needs_deleting,
    )
}

/// A deep copy of a list of strings.
fn clone_strings(v: &Vec<String>) -> (r: Vec<String>)
    ensures
        strings_view(r@) == strings_view(v@),
        r@.len() == v@.len(),
{
    let mut r: Vec<String> = Vec::new();
    let mut i: usize = 0;
    while i < v.len()
        invariant
            0 <= i <= v@.len(),
            r@.len() == i,
            forall|k: int| 0 <= k < i ==> (#[trigger] r@[k])@ == v@[k]@,
        decreases v@.len() - i,
    {
        r.push(v[i].clone());
        i += 1;
    }
    proof {
        assert(strings_view(r@) =~= strings_view(v@));
    }
    r
}

/// The file-update behaviour after the blanket and individual overrides.
fn resolve_file_update(
    base: DestFileUpdateBehaviour,
    all: &Option<AllDestructiveBehaviour>,
    individual: &Option<DestFileUpdateBehaviour>,
) -> (r: DestFileUpdateBehaviour)
    ensures
        r == spec_resolve_file_update(base, *all, *individual),
{
    let mut r = base;
    if base != DestFileUpdateBehaviour::Skip {
        if let Some(a) = all {
            r = a.as_file_update();
        }
    }
    if let Some(b) = individual {
        r = *b;
    }
    r
}

/// The entry-deleting behaviour after the blanket and individual
/// overrides.
fn resolve_entry_deleting(
    base: DestEntryNeedsDeletingBehaviour,
    all: &Option<AllDestructiveBehaviour>,
    individual: &Option<DestEntryNeedsDeletingBehaviour>,
) -> (r: DestEntryNeedsDeletingBehaviour)
    ensures
        r == spec_resolve_entry_deleting(base, *all, *individual),
{
    let mut r = base;
    if base != DestEntryNeedsDeletingBehaviour::Skip {
        if let Some(a) = all {
            r = a.as_entry_deleting();
        }
    }
    if let Some(b) = individual {
        r = *b;
    }
    r
}

/// The root-deleting behaviour after the blanket and individual overrides.
fn resolve_root_deleting(
    base: DestRootNeedsDeletingBehaviour,
    all: &Option<AllDestructiveBehaviour>,
    individual: &Option<DestRootNeedsDeletingBehaviour>,
) -> (r: DestRootNeedsDeletingBehaviour)
    ensures
        r == spec_resolve_root_deleting(base, *all, *individual),
{
    let mut r = base;
    if base != DestRootNeedsDeletingBehaviour::Skip {
        if let Some(a) = all {
            r = a.as_root_deleting();
        }
    }
    if let Some(b) = individual {
        r = *b;
    }
    r
}

/// One sync after every command-line override.
fn resolve_one_sync(base: &SyncSpec, args: &CliOptions) -> (r: SyncSpec)
    ensures
        spec_sync_resolved(r, *base, *args),
{
    let filters = if args.filter.len() > 0 {
        clone_strings(&args.filter)
    } else {
        clone_strings(&base.filters)
    };
    SyncSpec {
        src: base.src.clone(),
        dest: base.dest.clone(),
        filters,
        dest_file_newer_behaviour: resolve_file_update(
            base.dest_file_newer_behaviour,
            &args.all_destructive_behaviour,
            &args.dest_file_newer,
        ),
        dest_file_older_behaviour: resolve_file_update(
            base.dest_file_older_behaviour,
            &args.all_destructive_behaviour,
            &args.dest_file_older,
        ),
        files_same_time_behaviour: resolve_file_update(
            base.files_same_time_behaviour,
            &args.all_destructive_behaviour,
            &args.files_same_time,
        ),
        dest_entry_needs_deleting_behaviour: resolve_entry_deleting(
            base.dest_entry_needs_deleting_behaviour,
            &args.all_destructive_behaviour,
            &args.dest_entry_needs_deleting,
        ),
        dest_root_needs_deleting_behaviour: resolve_root_deleting(
            base.dest_root_needs_deleting_behaviour,
            &args.all_destructive_behaviour,
            &args.dest_root_needs_deleting,
        ),
    }
}

/// Figures out the spec a run should execute, from the command-line
/// arguments and the parsed spec file, if one was given.
///
/// With a spec file, its contents are the starting point; without one, the
/// source and destination arguments define a single sync.  Command-line
/// behaviours, filters and the deploy behaviour then override what the
/// file set.  The blanket destructive override touches only behaviours not
/// already set to skip, since those actions were not going to destroy
/// anything anyway, and loses to an individual override.
pub fn resolve_spec(args: &CliOptions, from_file: Option<Spec>) -> (r: Spec)
    requires
        from_file is None ==> args.src is Some && args.dest is Some,
    ensures
        from_file matches Some(f) ==> {
            &&& r.src_hostname@ == f.src_hostname@
            &&& r.src_username@ == f.src_username@
            &&& r.dest_hostname@ == f.dest_hostname@
            &&& r.dest_username@ == f.dest_username@
            &&& r.deploy_behaviour == (if args.deploy is Some {
                args.deploy->0
            } else {
                f.deploy_behaviour
            })
            &&& r.syncs@.len() == f.syncs@.len()
            &&& forall|k: int|
                0 <= k < r.syncs@.len() ==> spec_sync_resolved(
                    #[trigger] r.syncs@[k],
                    f.syncs@[k],
                    *args,
                )
        },
        from_file is None ==> {
            &&& r.src_hostname@ == args.src->0.hostname@
            &&& r.src_username@ == args.src->0.username@
            &&& r.dest_hostname@ == args.dest->0.hostname@
            &&& r.dest_username@ == args.dest->0.username@
            &&& r.deploy_behaviour == (if args.deploy is Some {
                args.deploy->0
            } else {
                DeployBehaviour::Prompt
            })
            &&& r.syncs@.len() == 1
            &&& spec_direct_sync_resolved(
                r.syncs@[0],
                args.src->0.path@,
                args.dest->0.path@,
                *args,
            )
        },
{
    match from_file {
        Some(f) => {
            let Spec {
                src_hostname,
                src_username,
                dest_hostname,
                dest_username,
                deploy_behaviour,
                syncs,
            } = f;
            let deploy = match &args.deploy {
                Some(b) => *b,
                None => deploy_behaviour,
            };
            let mut out_syncs: Vec<SyncSpec> = Vec::new();
            let mut k: usize = 0;
            while k < syncs.len()
                invariant
                    0 <= k <= syncs@.len(),
                    out_syncs@.len() == k,
                    forall|x: int|
                        0 <= x < k ==> spec_sync_resolved(
                            #[trigger] out_syncs@[x],
                            syncs@[x],
                            *args,
                        ),
                decreases syncs@.len() - k,
            {
                out_syncs.push(resolve_one_sync(&syncs[k], args));
                k += 1;
            }
            Spec {
                src_hostname,
                src_username,
                dest_hostname,
                dest_username,
                deploy_behaviour: deploy,
                syncs: out_syncs,
            }
        },
        None => {
            let src = match &args.src {
                Some(s) => s,
                None => {
                    proof {
                        assert(false);
                    }
                    return Spec::default();
                },
            };
            let dest = match &args.dest {
                Some(d) => d,
                None => {
                    proof {
                        assert(false);
                    }
                    return Spec::default();
                },
            };
            let base = SyncSpec {
                src: src.path.clone(),
                dest: dest.path.clone(),
                ..SyncSpec::default()
            };
            proof {
                assert(strings_view(base.filters@) =~= Seq::<Seq<char>>::empty());
            }
            let resolved = resolve_one_sync(&base, args);
            let mut syncs: Vec<SyncSpec> = Vec::new();
            syncs.push(resolved);
            let out = Spec {
                src_hostname: src.hostname.clone(),
                src_username: src.username.clone(),
                dest_hostname: dest.hostname.clone(),
                dest_username: dest.username.clone(),
                deploy_behaviour: match &args.deploy {
                    Some(b) => *b,
                    None => DeployBehaviour::Prompt,
                },
                syncs,
            };
            proof {
                assert(out.syncs@[0] == resolved);
                assert(spec_direct_sync_resolved(
                    out.syncs@[0],
                    args.src->0.path@,
                    args.dest->0.path@,
                    *args,
                ));
            }
            out
        },
    }
}

} // verus!
