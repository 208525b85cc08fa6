//! What a child process is started with so that it can sandbox itself.
use crate::error::{EnforceError, EnforceErrorView, EnforceResult};
use crate::layout;
use crate::local_process::KernelSupport;
use crate::map_caps::MapOptions;
use crate::native;
use crate::native::Style;
use crate::number;
use crate::policy::Policy;
use vstd::prelude::*;
use vstd::string::*;

verus! {

/// Whether the system can sandbox processes at all.
pub fn prepare_kernel(support: &KernelSupport) -> (r: EnforceResult<()>)
    ensures
        match r {
            Ok(_) => support.is_supported,
            Err(e) => !support.is_supported && e@ == EnforceErrorView::Unsupported(
                support.details@,
            ),
        },
{
    if support.is_supported {
        Ok(())
    } else {
        Err(EnforceError::Unsupported(support.details.clone()))
    }
}

/// How the policy is mapped in a process whose proxy port is set to `port`.
/// A setting that is no port is no setting.
pub fn map_options(block_process_network: bool, port: Option<&str>) -> (r: MapOptions)
    ensures
        r.block_process_network == block_process_network,
        r.egress_proxy_port == match port {
            Some(p) => number::u16_numeral(p@),
            None => None,
        },
{
    MapOptions {
        block_process_network,
        egress_proxy_port: match port {
            Some(p) => number::parse_u16(p),
            None => None,
        },
    }
}

/// Where the policy of a child process is written, for the given `KEEL_HOME` and
/// home directory.
pub open spec fn policy_file(
    style: Style,
    set: Option<Seq<char>>,
    home: Option<Seq<char>>,
    policy_id: Seq<char>,
    pid: u32,
) -> Seq<char> {
    let state = match set {
        Some(h) => h,
        None => native::joined(
            style,
            match home {
                Some(h) => h,
                None => "/tmp"@,
            },
            ".keel"@,
        ),
    };
    native::joined(
        style,
        native::joined(style, state, "tmp"@),
        "policy-"@ + policy_id + "-"@ + number::decimal(pid as nat) + ".json"@,
    )
}

/// Where the policy of a child process is written.
pub fn spawn_policy_file(set: Option<&str>, home: Option<&str>, policy: &Policy, pid: u32) -> (r:
    String)
    ensures
        r@ == policy_file(
            policy@.style,
            layout::opt_view(set),
            layout::opt_view(home),
            policy@.id,
            pid,
        ),
{
    let style = policy.style;
    let state = match set {
        Some(h) => h.to_owned(),
        None => native::join(
            style,
            match home {
                Some(h) => h,
                None => "/tmp",
            },
            ".keel",
        ),
    };
    let name = "policy-".to_owned().concat(policy.id.as_str()).concat("-").concat(
        number::to_decimal(pid as u64).as_str(),
    ).concat(".json");
    native::join(style, layout::keel_tmp_dir(style, state.as_str()).as_str(), name.as_str())
}

// ---------------------------------------------------------------------------
// Laws
// ---------------------------------------------------------------------------
/// The policy of a child is written below the state directory, in a file that names
/// the policy and the process.
pub proof fn where_the_policy_of_a_child_is_written(
    style: Style,
    set: Option<Seq<char>>,
    home: Option<Seq<char>>,
    policy_id: Seq<char>,
    pid: u32,
)
    ensures
        ({
            let name = "policy-"@ + policy_id + "-"@ + number::decimal(pid as nat) + ".json"@;
            let p = policy_file(style, set, home, policy_id, pid);
            &&& set is Some ==> p == native::joined(
                style,
                native::joined(style, set->0, "tmp"@),
                name,
            )
            &&& set is None && home is Some ==> p == native::joined(
                style,
                native::joined(style, native::joined(style, home->0, ".keel"@), "tmp"@),
                name,
            )
            &&& set is None && home is None ==> p == native::joined(
                style,
                native::joined(style, native::joined(style, "/tmp"@, ".keel"@), "tmp"@),
                name,
            )
        }),
{
}

} // verus!
