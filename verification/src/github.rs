//! GitHub Codespaces: the requests the node makes to the GitHub API and what
//! it makes of the answers. The HTTP exchange itself is left to the caller.

use vstd::prelude::*;

use crate::text::{chars_of, decimal, push_decimal, push_str, str_eq, string_of};

verus! {

/// The API endpoint for the user's codespaces.
pub const CODESPACES_URL: &'static str = "https://api.github.com/user/codespaces";

/// The token that marks simulation mode.
pub const SIMULATION_TOKEN: &'static str = "simulation-token";

/// The repository of the TRIAD network.
pub const TRIAD_REPOSITORY_ID: u64 = 987166369;

/// A codespace as the API describes it.
#[derive(Debug)]
pub struct Codespace {
    pub id: String,
    pub name: String,
    pub machine: String,
    pub state: String,
    pub url: String,
    pub web_url: String,
    pub location: String,
    pub idle_timeout_minutes: u32,
    pub retention_period_minutes: u32,
    pub created_at: String,
    pub updated_at: String,
}

/// A request to create a codespace.
#[derive(Debug)]
pub struct CreateCodespaceRequest {
    pub repository_id: u64,
    pub machine: Option<String>,
    pub location: Option<String>,
    pub idle_timeout_minutes: Option<u32>,
    pub retention_period_minutes: Option<u32>,
}

/// The answer to a creation request.
#[derive(Debug)]
pub struct CreateCodespaceResponse {
    pub codespace: Codespace,
}

/// Access to the Codespaces of a repository.
#[derive(Debug)]
pub struct GitHubCodespaces {
    /// API token
    pub token: String,
    /// Repository owner
    pub owner: String,
    /// Repository name
    pub repo: String,
}

/// The URL of one codespace, with `suffix` appended ("", "/start" or "/stop").
pub open spec fn codespace_url_text(id: Seq<char>, suffix: Seq<char>) -> Seq<char> {
    "https://api.github.com/user/codespaces/"@ + id + suffix
}

/// The URL of one codespace, with `suffix` appended.
pub fn codespace_url(id: &str, suffix: &str) -> (r: String)
    ensures
        r@ == codespace_url_text(id@, suffix@),
{
    let mut out: Vec<char> = Vec::new();
    push_str(&mut out, "https://api.github.com/user/codespaces/");
    push_str(&mut out, id);
    push_str(&mut out, suffix);
    string_of(&out)
}

/// The authorization header value for a token: "Bearer " and the token.
pub fn bearer(token: &str) -> (r: String)
    ensures
        r@ == "Bearer "@ + token@,
{
    let mut out: Vec<char> = Vec::new();
    push_str(&mut out, "Bearer ");
    push_str(&mut out, token);
    string_of(&out)
}

/// The error text for a failed call: the action, then the status and the
/// body of the answer ("<action>: <status> - <body>").
pub fn failure_text(action: &str, status: &str, body: &str) -> (r: String)
    ensures
        r@ == action@ + ": "@ + status@ + " - "@ + body@,
{
    let mut out: Vec<char> = Vec::new();
    push_str(&mut out, action);
    push_str(&mut out, ": ");
    push_str(&mut out, status);
    push_str(&mut out, " - ");
    push_str(&mut out, body);
    string_of(&out)
}

/// Whether `s` starts with `prefix`.
pub open spec fn starts_with(s: Seq<char>, prefix: Seq<char>) -> bool {
    prefix.len() <= s.len() && s.take(prefix.len() as int) == prefix
}

/// Whether a name starts with a prefix (`str::starts_with`).
pub fn has_prefix(s: &str, prefix: &str) -> (r: bool)
    ensures
        r == starts_with(s@, prefix@),
{
    let a = chars_of(s);
    let b = chars_of(prefix);
    if b.len() > a.len() {
        return false;
    }
    let mut i: usize = 0;
    while i < b.len()
        invariant
            a@ == s@,
            b@ == prefix@,
            b@.len() <= a@.len(),
            i <= b@.len(),
            forall|k: int| 0 <= k < i ==> a@[k] == b@[k],
        decreases b@.len() - i,
    {
        if a[i] != b[i] {
            assert(s@.take(prefix@.len() as int)[i as int] != prefix@[i as int]);
            return false;
        }
        i = i + 1;
    }
    assert(s@.take(prefix@.len() as int) =~= prefix@);
    true
}

/// Machines and regions of the ten codespaces of a TRIAD network.
pub open spec fn triad_plan() -> Seq<(Seq<char>, Seq<char>)> {
    seq![
        ("basicLinux32gb"@, "WestUs2"@),
        ("basicLinux32gb"@, "EastUs"@),
        ("basicLinux32gb"@, "WestEurope"@),
        ("basicLinux32gb"@, "SoutheastAsia"@),
        ("basicLinux32gb"@, "AustraliaEast"@),
        ("basicLinux32gb"@, "BrazilSouth"@),
        ("basicLinux32gb"@, "JapanEast"@),
        ("basicLinux32gb"@, "SouthAfricaNorth"@),
        ("basicLinux32gb"@, "CentralIndia"@),
        ("basicLinux32gb"@, "NorthEurope"@),
    ]
}

impl GitHubCodespaces {
    /// Access with a token to a repository.
    pub fn new(token: String, owner: String, repo: String) -> (r: Self)
        ensures
            r.token == token,
            r.owner == owner,
            r.repo == repo,
    {
        GitHubCodespaces { token, owner, repo }
    }

    /// The request to create a codespace on `machine` in `location`: kept
    /// idle for 8 hours, retained for a day.
    pub fn create_request(&self, machine: &str, location: &str) -> (r: CreateCodespaceRequest)
        ensures
            r.repository_id == 0,
            r.machine matches Some(m) && m@ == machine@,
            r.location matches Some(l) && l@ == location@,
            r.idle_timeout_minutes == Some(480u32),
            r.retention_period_minutes == Some(1440u32),
    {
        CreateCodespaceRequest {
            repository_id: 0,
            machine: Some(machine.to_string()),
            location: Some(location.to_string()),
            idle_timeout_minutes: Some(480),
            retention_period_minutes: Some(1440),
        }
    }

    /// The machines and regions of the ten codespaces of a TRIAD network.
    pub fn triad_network_plan() -> (r: Vec<(&'static str, &'static str)>)
        ensures
            r@.map_values(|p: (&str, &str)| (p.0@, p.1@)) == triad_plan(),
    {
        let mut out: Vec<(&'static str, &'static str)> = Vec::new();
        out.push(("basicLinux32gb", "WestUs2"));
        out.push(("basicLinux32gb", "EastUs"));
        out.push(("basicLinux32gb", "WestEurope"));
        out.push(("basicLinux32gb", "SoutheastAsia"));
        out.push(("basicLinux32gb", "AustraliaEast"));
        out.push(("basicLinux32gb", "BrazilSouth"));
        out.push(("basicLinux32gb", "JapanEast"));
        out.push(("basicLinux32gb", "SouthAfricaNorth"));
        out.push(("basicLinux32gb", "CentralIndia"));
        out.push(("basicLinux32gb", "NorthEurope"));
        assert(out@.map_values(|p: (&str, &str)| (p.0@, p.1@)) =~= triad_plan());
        out
    }

    /// The positions of the codespaces of a TRIAD network among `names`:
    /// those whose name starts with "triad-node-", in order.
    pub fn triad_codespaces(names: &Vec<String>) -> (r: Vec<usize>)
        ensures
            forall|i: int| 0 <= i < r@.len() ==> r@[i] < names@.len() && starts_with(names@[r@[i] as int]@, "triad-node-"@),
            forall|k: int| 0 <= k < names@.len() && starts_with(names@[k]@, "triad-node-"@) ==> r@.contains(k as usize),
            forall|i: int, j: int| 0 <= i < j < r@.len() ==> r@[i] < r@[j],
    {
        let mut out: Vec<usize> = Vec::new();
        let mut k: usize = 0;
        while k < names.len()
            invariant
                k <= names@.len(),
                forall|i: int| 0 <= i < out@.len() ==> out@[i] < k && starts_with(names@[out@[i] as int]@, "triad-node-"@),
                forall|m: int| 0 <= m < k && starts_with(names@[m]@, "triad-node-"@) ==> out@.contains(m as usize),
                forall|i: int, j: int| 0 <= i < j < out@.len() ==> out@[i] < out@[j],
            decreases names@.len() - k,
        {
            if has_prefix(names[k].as_str(), "triad-node-") {
                let ghost before = out@;
                out.push(k);
                assert(out@[before.len() as int] == k);
                assert forall|m: int| 0 <= m < k + 1 && starts_with(names@[m]@, "triad-node-"@) implies out@.contains(m as usize) by {
                    if m < k {
                        let i = choose|i: int| 0 <= i < before.len() && before[i] == m as usize;
                        assert(out@[i] == m as usize);
                    } else {
                        assert(out@[before.len() as int] == m as usize);
                    }
                }
            }
            k = k + 1;
        }
        out
    }
}

/// The codespace manager of a distributed network: a token and the
/// repository; repository 0 or the simulation token mean simulation mode.
#[derive(Debug)]
pub struct GitHubCodespaceManager {
    /// API token
    pub token: String,
    /// Repository id
    pub repo_id: u64,
}

/// The body of the request that creates a node's codespace.
#[derive(Debug, Clone)]
pub struct NodeCodespaceRequest {
    /// Repository id
    pub repository_id: u64,
    /// Machine type
    pub machine: String,
    /// Region
    pub location: String,
    /// Minutes of idleness before the codespace stops
    pub idle_timeout_minutes: u32,
    /// Name shown for the codespace (the node id)
    pub display_name: String,
    /// Minutes a stopped codespace is kept
    pub retention_period_minutes: u32,
    /// Branch to check out
    pub git_ref: String,
}

/// The id and name of a listed codespace: the id is its text, or else its
/// number in decimal; entries without both a name and an id are skipped.
pub open spec fn listed_entry(name: Option<Seq<char>>, id_text: Option<Seq<char>>, id_number: Option<u64>) -> Option<(Seq<char>, Seq<char>)> {
    let n = match name {
        Some(x) => x,
        None => Seq::empty(),
    };
    let i = match id_text {
        Some(x) => x,
        None => match id_number {
            Some(u) => decimal(u as nat),
            None => Seq::empty(),
        },
    };
    if n.len() > 0 && i.len() > 0 { Some((i, n)) } else { None }
}

impl GitHubCodespaceManager {
    /// A manager in simulation mode.
    pub fn new_simulation() -> (r: Self)
        ensures
            r.token@ == SIMULATION_TOKEN@,
            r.repo_id == 0,
    {
        GitHubCodespaceManager { token: SIMULATION_TOKEN.to_string(), repo_id: 0 }
    }

    /// A manager for the TRIAD repository with this token.
    pub fn with_token(token: String) -> (r: Self)
        ensures
            r.token == token,
            r.repo_id == TRIAD_REPOSITORY_ID,
    {
        GitHubCodespaceManager { token, repo_id: TRIAD_REPOSITORY_ID }
    }

    /// Whether the manager only simulates.
    pub fn is_simulation(&self) -> (r: bool)
        ensures
            r == (self.repo_id == 0 || self.token@ == SIMULATION_TOKEN@),
    {
        self.repo_id == 0 || str_eq(self.token.as_str(), SIMULATION_TOKEN)
    }

    /// Refuses to create a codespace in simulation mode.
    pub fn check_can_create(&self) -> (r: Result<(), String>)
        ensures
            (self.repo_id == 0 || self.token@ == SIMULATION_TOKEN@) ==> (r matches Err(t) && t@
                == "GitHub token not available - cannot create codespace"@),
            !(self.repo_id == 0 || self.token@ == SIMULATION_TOKEN@) ==> r is Ok,
    {
        if self.is_simulation() {
            let text = "GitHub token not available - cannot create codespace";
            return Err(text.to_string());
        }
        Ok(())
    }

    /// The body of the request that creates the codespace of node `node_id`:
    /// this repository, a basic Linux machine in West US 2 on the main
    /// branch, stopping after 30 idle minutes and kept 480 minutes.
    pub fn node_codespace_request(&self, node_id: &str) -> (r: NodeCodespaceRequest)
        ensures
            r.repository_id == self.repo_id,
            r.machine@ == "basicLinux32gb"@,
            r.location@ == "WestUs2"@,
            r.idle_timeout_minutes == 30,
            r.display_name@ == node_id@,
            r.retention_period_minutes == 480,
            r.git_ref@ == "main"@,
    {
        NodeCodespaceRequest {
            repository_id: self.repo_id,
            machine: "basicLinux32gb".to_string(),
            location: "WestUs2".to_string(),
            idle_timeout_minutes: 30,
            display_name: node_id.to_string(),
            retention_period_minutes: 480,
            git_ref: "main".to_string(),
        }
    }

    /// Refuses to start a codespace in simulation mode.
    pub fn check_can_start(&self) -> (r: Result<(), String>)
        ensures
            (self.repo_id == 0 || self.token@ == SIMULATION_TOKEN@) ==> (r matches Err(t) && t@
                == "GitHub token not available - cannot start codespace"@),
            !(self.repo_id == 0 || self.token@ == SIMULATION_TOKEN@) ==> r is Ok,
    {
        if self.is_simulation() {
            let text = "GitHub token not available - cannot start codespace";
            return Err(text.to_string());
        }
        Ok(())
    }

    /// The id and name of a listed codespace (see [`listed_entry`]).
    pub fn listed_codespace(name: Option<&str>, id_text: Option<&str>, id_number: Option<u64>) -> (r: Option<(String, String)>)
        ensures
            match (r, listed_entry(
                match name {
                    Some(x) => Some(x@),
                    None => None,
                },
                match id_text {
                    Some(x) => Some(x@),
                    None => None,
                },
                id_number,
            )) {
                (Some((i, n)), Some((ei, en))) => i@ == ei && n@ == en,
                (None, None) => true,
                _ => false,
            },
    {
        let mut n: Vec<char> = Vec::new();
        match name {
            Some(x) => push_str(&mut n, x),
            None => {},
        }
        let mut i: Vec<char> = Vec::new();
        match id_text {
            Some(x) => push_str(&mut i, x),
            None => match id_number {
                Some(u) => push_decimal(&mut i, u),
                None => {},
            },
        }
        proof {
            assert(n@ =~= match name { Some(x) => x@, None => Seq::<char>::empty() });
            assert(i@ =~= match id_text {
                Some(x) => x@,
                None => match id_number {
                    Some(u) => decimal(u as nat),
                    None => Seq::<char>::empty(),
                },
            });
        }
        if n.len() > 0 && i.len() > 0 {
            Some((string_of(&i), string_of(&n)))
        } else {
            None
        }
    }
}

} // verus!
