//! The encrypted vault of project snapshots, with per-project roles.
pub mod crypto;

use vstd::prelude::*;

use vstd::string::StringExecFns;

use crate::auth::Session;
use crate::scanner::{files_view, EnvFile, EnvFileView};
use crate::system::{is_uuid_text, new_uuid_v4, unix_time_secs};
use crate::text::{decimal, format_u64, str_eq};

verus! {

broadcast use vstd::string::group_string_axioms;

/// A member's role in a project.
#[derive(Clone, Copy, PartialEq, Eq, Structural, Debug)]
pub enum Role {
    Owner,
    Editor,
    Viewer,
}

/// A user's membership in a project.
pub struct ProjectMember {
    pub user_id: String,
    pub role: Role,
}

pub struct ProjectMemberView {
    pub user_id: Seq<char>,
    pub role: Role,
}

impl View for ProjectMember {
    type V = ProjectMemberView;

    open spec fn view(&self) -> ProjectMemberView {
        ProjectMemberView { user_id: self.user_id@, role: self.role }
    }
}

/// A project snapshot: its `.env` files, owner and members.
pub struct Project {
    pub id: String,
    pub name: String,
    pub directory: String,
    pub owner_id: String,
    pub members: Vec<ProjectMember>,
    pub files: Vec<EnvFile>,
    pub created_at: String,
    pub updated_at: String,
}

pub struct ProjectView {
    pub id: Seq<char>,
    pub name: Seq<char>,
    pub directory: Seq<char>,
    pub owner_id: Seq<char>,
    pub members: Seq<ProjectMemberView>,
    pub files: Seq<EnvFileView>,
    pub created_at: Seq<char>,
    pub updated_at: Seq<char>,
}

impl View for Project {
    type V = ProjectView;

    open spec fn view(&self) -> ProjectView {
        ProjectView {
            id: self.id@,
            name: self.name@,
            directory: self.directory@,
            owner_id: self.owner_id@,
            members: self.members@.map_values(|m: ProjectMember| m@),
            files: files_view(self.files@),
            created_at: self.created_at@,
            updated_at: self.updated_at@,
        }
    }
}

/// All projects in the vault.
pub struct VaultStore {
    pub projects: Vec<Project>,
}

/// The views of the projects of a vault.
pub open spec fn projects_view(ps: Seq<Project>) -> Seq<ProjectView> {
    ps.map_values(|p: Project| p@)
}

/// What the interface shows of a project for one user.
pub struct ProjectSummary {
    pub id: String,
    pub name: String,
    pub directory: String,
    pub owner_id: String,
    pub role: Role,
    pub file_count: usize,
    pub entry_count: usize,
    pub created_at: String,
    pub updated_at: String,
}

pub struct ProjectSummaryView {
    pub id: Seq<char>,
    pub name: Seq<char>,
    pub directory: Seq<char>,
    pub owner_id: Seq<char>,
    pub role: Role,
    pub file_count: nat,
    pub entry_count: nat,
    pub created_at: Seq<char>,
    pub updated_at: Seq<char>,
}

impl View for ProjectSummary {
    type V = ProjectSummaryView;

    open spec fn view(&self) -> ProjectSummaryView {
        ProjectSummaryView {
            id: self.id@,
            name: self.name@,
            directory: self.directory@,
            owner_id: self.owner_id@,
            role: self.role,
            file_count: self.file_count as nat,
            entry_count: self.entry_count as nat,
            created_at: self.created_at@,
            updated_at: self.updated_at@,
        }
    }
}

// ---------------------------------------------------------------------------
// Specification
// ---------------------------------------------------------------------------

pub open spec fn not_authenticated_message() -> Seq<char> {
    "Not authenticated"@
}

pub open spec fn access_denied_message() -> Seq<char> {
    "Access denied"@
}

pub open spec fn viewers_cannot_modify_message() -> Seq<char> {
    "Viewers cannot modify projects"@
}

pub open spec fn project_not_found_message(id: Seq<char>) -> Seq<char> {
    "Project not found: "@ + id
}

/// Index of the first member with this user id, or the number of members.
pub open spec fn member_index(members: Seq<ProjectMemberView>, user_id: Seq<char>) -> int
    decreases members.len(),
{
    if members.len() == 0 {
        0
    } else if members[0].user_id == user_id {
        0
    } else {
        1 + member_index(members.drop_first(), user_id)
    }
}

/// The user is a member of the project.
pub open spec fn is_member(p: ProjectView, user_id: Seq<char>) -> bool {
    exists|i: int| 0 <= i < p.members.len() && #[trigger] p.members[i].user_id == user_id
}

/// The user's role: that of the first membership, `Viewer` when none.
pub open spec fn role_of(p: ProjectView, user_id: Seq<char>) -> Role {
    let i = member_index(p.members, user_id);
    if 0 <= i < p.members.len() {
        p.members[i].role
    } else {
        Role::Viewer
    }
}

/// The number of entries over all files.
pub open spec fn entry_total(files: Seq<EnvFileView>) -> nat
    decreases files.len(),
{
    if files.len() == 0 {
        0
    } else {
        entry_total(files.drop_last()) + files.last().entries.len()
    }
}

/// The summary of a project for a user.
pub open spec fn spec_summary(p: ProjectView, user_id: Seq<char>) -> ProjectSummaryView {
    ProjectSummaryView {
        id: p.id,
        name: p.name,
        directory: p.directory,
        owner_id: p.owner_id,
        role: role_of(p, user_id),
        file_count: p.files.len(),
        entry_count: entry_total(p.files),
        created_at: p.created_at,
        updated_at: p.updated_at,
    }
}

/// The summaries of the projects the user is a member of, in vault order.
pub open spec fn spec_visible(ps: Seq<ProjectView>, user_id: Seq<char>) -> Seq<ProjectSummaryView>
    decreases ps.len(),
{
    if ps.len() == 0 {
        seq![]
    } else {
        let prev = spec_visible(ps.drop_last(), user_id);
        if is_member(ps.last(), user_id) {
            prev.push(spec_summary(ps.last(), user_id))
        } else {
            prev
        }
    }
}

/// Index of the first project with this id, or the number of projects.
pub open spec fn project_index(ps: Seq<ProjectView>, id: Seq<char>) -> int
    decreases ps.len(),
{
    if ps.len() == 0 {
        0
    } else if ps[0].id == id {
        0
    } else {
        1 + project_index(ps.drop_first(), id)
    }
}

/// Entry totals of the files fit in a `usize`.
pub open spec fn counts_fit(files: Seq<EnvFileView>) -> bool {
    entry_total(files) <= usize::MAX
}

// ---------------------------------------------------------------------------
// Lemmas
// ---------------------------------------------------------------------------

pub proof fn lemma_member_index(members: Seq<ProjectMemberView>, user_id: Seq<char>)
    ensures
        0 <= member_index(members, user_id) <= members.len(),
        forall|k: int|
            0 <= k < member_index(members, user_id) ==> #[trigger] members[k].user_id != user_id,
        member_index(members, user_id) < members.len() ==> members[member_index(
            members,
            user_id,
        )].user_id == user_id,
    decreases members.len(),
{
    if members.len() > 0 && members[0].user_id != user_id {
        lemma_member_index(members.drop_first(), user_id);
        assert forall|k: int| 0 <= k < member_index(members, user_id) implies #[trigger] members[k].user_id
            != user_id by {
            if k > 0 {
                assert(members[k] == members.drop_first()[k - 1]);
            }
        }
    }
}

pub proof fn lemma_member_index_at(members: Seq<ProjectMemberView>, user_id: Seq<char>, k: int)
    requires
        0 <= k <= members.len(),
        forall|j: int| 0 <= j < k ==> #[trigger] members[j].user_id != user_id,
        k == members.len() || members[k].user_id == user_id,
    ensures
        member_index(members, user_id) == k,
{
    lemma_member_index(members, user_id);
    let f = member_index(members, user_id);
    if f < k {
        assert(members[f].user_id == user_id);
    }
    if k < f {
        assert(members[k].user_id != user_id);
    }
}

pub proof fn lemma_project_index(ps: Seq<ProjectView>, id: Seq<char>)
    ensures
        0 <= project_index(ps, id) <= ps.len(),
        forall|k: int| 0 <= k < project_index(ps, id) ==> #[trigger] ps[k].id != id,
        project_index(ps, id) < ps.len() ==> ps[project_index(ps, id)].id == id,
    decreases ps.len(),
{
    if ps.len() > 0 && ps[0].id != id {
        lemma_project_index(ps.drop_first(), id);
        assert forall|k: int| 0 <= k < project_index(ps, id) implies #[trigger] ps[k].id != id by {
            if k > 0 {
                assert(ps[k] == ps.drop_first()[k - 1]);
            }
        }
    }
}

pub proof fn lemma_project_index_at(ps: Seq<ProjectView>, id: Seq<char>, k: int)
    requires
        0 <= k <= ps.len(),
        forall|j: int| 0 <= j < k ==> #[trigger] ps[j].id != id,
        k == ps.len() || ps[k].id == id,
    ensures
        project_index(ps, id) == k,
{
    lemma_project_index(ps, id);
    let f = project_index(ps, id);
    if f < k {
        assert(ps[f].id == id);
    }
    if k < f {
        assert(ps[k].id != id);
    }
}

/// A user sees exactly the projects they are a member of: every listed
/// summary is that of a project with the user among its members, and every
/// such project is listed.
pub proof fn lemma_visible_exactly_members(ps: Seq<ProjectView>, user_id: Seq<char>)
    ensures
        forall|j: int|
            0 <= j < spec_visible(ps, user_id).len() ==> exists|k: int|
                0 <= k < ps.len() && is_member(ps[k], user_id) && #[trigger] spec_visible(
                    ps,
                    user_id,
                )[j] == spec_summary(#[trigger] ps[k], user_id),
        forall|k: int|
            0 <= k < ps.len() && is_member(#[trigger] ps[k], user_id) ==> spec_visible(
                ps,
                user_id,
            ).contains(spec_summary(ps[k], user_id)),
    decreases ps.len(),
{
    if ps.len() > 0 {
        let init = ps.drop_last();
        lemma_visible_exactly_members(init, user_id);
        let prev = spec_visible(init, user_id);
        let cur = spec_visible(ps, user_id);
        assert forall|j: int| 0 <= j < cur.len() implies exists|k: int|
            0 <= k < ps.len() && is_member(ps[k], user_id) && #[trigger] cur[j] == spec_summary(
                #[trigger] ps[k],
                user_id,
            ) by {
            if j < prev.len() {
                assert(cur[j] == prev[j]);
                let k = choose|k: int|
                    0 <= k < init.len() && is_member(init[k], user_id) && #[trigger] prev[j]
                        == spec_summary(#[trigger] init[k], user_id);
                assert(init[k] == ps[k]);
            } else {
                assert(ps[ps.len() - 1] == ps.last());
            }
        }
        assert forall|k: int| 0 <= k < ps.len() && is_member(#[trigger] ps[k], user_id) implies cur.contains(
            spec_summary(ps[k], user_id),
        ) by {
            if k < init.len() {
                assert(init[k] == ps[k]);
                let j = choose|j: int| 0 <= j < prev.len() && prev[j] == spec_summary(init[k], user_id);
                assert(cur[j] == prev[j]);
            } else {
                assert(ps[k] == ps.last());
                assert(cur[cur.len() - 1] == spec_summary(ps.last(), user_id));
            }
        }
    }
}

// ---------------------------------------------------------------------------
// Implementation
// ---------------------------------------------------------------------------

/// The current time as decimal seconds since the Unix epoch.
pub fn now_ts() -> (ts: String)
    ensures
        exists|t: u64| ts@ == decimal(t as nat),
{
    let secs = unix_time_secs();
    format_u64(secs)
}

/// The vault key of the session; an error when nobody is logged in.
pub fn get_vault_key(session: &Option<Session>) -> (res: Result<[u8; 32], String>)
    ensures
        session matches Some(s) ==> (res matches Ok(k) && k@ == s.vault_key@),
        session is None ==> (res matches Err(e) && e@ == not_authenticated_message()),
{
    match session {
        Some(s) => Ok(s.vault_key),
        None => Err(String::from_str("Not authenticated")),
    }
}

/// The user id of the session; an error when nobody is logged in.
pub fn get_user_id(session: &Option<Session>) -> (res: Result<String, String>)
    ensures
        session matches Some(s) ==> (res matches Ok(id) && id@ == s.user_id@),
        session is None ==> (res matches Err(e) && e@ == not_authenticated_message()),
{
    match session {
        Some(s) => Ok(s.user_id.clone()),
        None => Err(String::from_str("Not authenticated")),
    }
}

fn find_member(members: &Vec<ProjectMember>, user_id: &str) -> (i: usize)
    ensures
        i == member_index(members@.map_values(|m: ProjectMember| m@), user_id@),
{
    let ghost mv = members@.map_values(|m: ProjectMember| m@);
    let mut i: usize = 0;
    while i < members.len()
        invariant
            mv == members@.map_values(|m: ProjectMember| m@),
            mv.len() == members@.len(),
            i <= members@.len(),
            forall|j: int| 0 <= j < i ==> #[trigger] mv[j].user_id != user_id@,
        decreases members@.len() - i,
    {
        if str_eq(members[i].user_id.as_str(), user_id) {
            proof {
                lemma_member_index_at(mv, user_id@, i as int);
            }
            return i;
        }
        i += 1;
    }
    proof {
        lemma_member_index_at(mv, user_id@, i as int);
    }
    i
}

fn find_project(projects: &Vec<Project>, id: &str) -> (i: usize)
    ensures
        i == project_index(projects_view(projects@), id@),
{
    let ghost pv = projects_view(projects@);
    let mut i: usize = 0;
    while i < projects.len()
        invariant
            pv == projects_view(projects@),
            pv.len() == projects@.len(),
            i <= projects@.len(),
            forall|j: int| 0 <= j < i ==> #[trigger] pv[j].id != id@,
        decreases projects@.len() - i,
    {
        if str_eq(projects[i].id.as_str(), id) {
            proof {
                lemma_project_index_at(pv, id@, i as int);
            }
            return i;
        }
        i += 1;
    }
    proof {
        lemma_project_index_at(pv, id@, i as int);
    }
    i
}

fn count_entries(files: &Vec<EnvFile>) -> (n: usize)
    requires
        counts_fit(files_view(files@)),
    ensures
        n == entry_total(files_view(files@)),
{
    let ghost fv = files_view(files@);
    let mut n: usize = 0;
    let mut i: usize = 0;
    while i < files.len()
        invariant
            fv == files_view(files@),
            fv.len() == files@.len(),
            i <= files@.len(),
            entry_total(fv) <= usize::MAX,
            n == entry_total(fv.take(i as int)),
        decreases files@.len() - i,
    {
        proof {
            assert(fv.take(i + 1).drop_last() =~= fv.take(i as int));
            lemma_entry_total_prefix(fv, i as int + 1);
        }
        n = n + files[i].entries.len();
        i += 1;
    }
    assert(fv.take(i as int) =~= fv);
    n
}

/// The total over a prefix is at most the total over the whole list.
proof fn lemma_entry_total_prefix(fv: Seq<EnvFileView>, k: int)
    requires
        0 <= k <= fv.len(),
    ensures
        entry_total(fv.take(k)) <= entry_total(fv),
    decreases fv.len() - k,
{
    if k < fv.len() {
        lemma_entry_total_prefix(fv, k + 1);
        assert(fv.take(k + 1).drop_last() =~= fv.take(k));
    } else {
        assert(fv.take(k) =~= fv);
    }
}

/// Summarizes a project for a user: the user's role (`Viewer` when not a
/// member) and the file and entry counts.
pub fn to_summary(project: &Project, user_id: &str) -> (s: ProjectSummary)
    requires
        counts_fit(project@.files),
    ensures
        s@ == spec_summary(project@, user_id@),
{
    let i = find_member(&project.members, user_id);
    let role = if i < project.members.len() {
        project.members[i].role
    } else {
        Role::Viewer
    };
    let entry_count = count_entries(&project.files);
    ProjectSummary {
        id: project.id.clone(),
        name: project.name.clone(),
        directory: project.directory.clone(),
        owner_id: project.owner_id.clone(),
        role,
        file_count: project.files.len(),
        entry_count,
        created_at: project.created_at.clone(),
        updated_at: project.updated_at.clone(),
    }
}

/// Lists the projects the user is a member of, summarized for that user.
pub fn list_projects(store: &VaultStore, user_id: &str) -> (res: Vec<ProjectSummary>)
    requires
        forall|i: int|
            0 <= i < store.projects@.len() && is_member(#[trigger] store.projects@[i]@, user_id@)
                ==> counts_fit(store.projects@[i]@.files),
    ensures
        res@.map_values(|s: ProjectSummary| s@) == spec_visible(
            projects_view(store.projects@),
            user_id@,
        ),
{
    let ghost pv = projects_view(store.projects@);
    let mut out: Vec<ProjectSummary> = Vec::new();
    let mut i: usize = 0;
    while i < store.projects.len()
        invariant
            pv == projects_view(store.projects@),
            pv.len() == store.projects@.len(),
            i <= store.projects@.len(),
            forall|k: int|
                0 <= k < store.projects@.len() && is_member(#[trigger] store.projects@[k]@, user_id@)
                    ==> counts_fit(store.projects@[k]@.files),
            out@.map_values(|s: ProjectSummary| s@) == spec_visible(pv.take(i as int), user_id@),
        decreases store.projects@.len() - i,
    {
        let p = &store.projects[i];
        assert(pv.take(i + 1).drop_last() =~= pv.take(i as int));
        assert(pv.take(i + 1).last() == p@);
        let j = find_member(&p.members, user_id);
        proof {
            lemma_member_index(p@.members, user_id@);
        }
        if j < p.members.len() {
            assert(is_member(p@, user_id@));
            let ghost before = out@.map_values(|s: ProjectSummary| s@);
            let s = to_summary(p, user_id);
            out.push(s);
            assert(out@.map_values(|s: ProjectSummary| s@) =~= before.push(
                spec_summary(p@, user_id@),
            ));
        } else {
            assert(!is_member(p@, user_id@));
        }
        i += 1;
    }
    assert(pv.take(i as int) =~= pv);
    out
}

/// Saves scanned files into a project.
///
/// With an id, the project must exist and the user must be a member who is
/// not a viewer; its files are replaced and its update time set. Without an
/// id, a new project owned by the user (its only member) is appended. On any
/// refusal the vault is unchanged. Returns the summary for the user.
pub fn save_to_project(
    store: &mut VaultStore,
    user_id: &str,
    project_id: Option<&str>,
    project_name: &str,
    directory: &str,
    files: Vec<EnvFile>,
) -> (res: Result<ProjectSummary, String>)
    requires
        counts_fit(files_view(files@)),
    ensures
        res matches Ok(s) ==> spec_visible(projects_view(final(store).projects@), user_id@).contains(
            s@,
        ),
        ({
            let old_ps = projects_view(old(store).projects@);
            let new_ps = projects_view(final(store).projects@);
            &&& res is Err ==> new_ps == old_ps
            &&& project_id matches Some(id) ==> {
                let i = project_index(old_ps, id@);
                &&& i >= old_ps.len() ==> (res matches Err(e) && e@ == project_not_found_message(
                    id@,
                ))
                &&& (i < old_ps.len() && !is_member(old_ps[i], user_id@)) ==> (res matches Err(e)
                    && e@ == access_denied_message())
                &&& (i < old_ps.len() && is_member(old_ps[i], user_id@) && role_of(
                    old_ps[i],
                    user_id@,
                ) == Role::Viewer) ==> (res matches Err(e) && e@ == viewers_cannot_modify_message())
                &&& (i < old_ps.len() && is_member(old_ps[i], user_id@) && role_of(
                    old_ps[i],
                    user_id@,
                ) != Role::Viewer) ==> {
                    &&& res is Ok
                    &&& new_ps.len() == old_ps.len()
                    &&& forall|k: int| 0 <= k < old_ps.len() && k != i ==> new_ps[k] == old_ps[k]
                    &&& new_ps[i].id == old_ps[i].id && new_ps[i].name == old_ps[i].name
                    &&& new_ps[i].directory == old_ps[i].directory
                    &&& new_ps[i].owner_id == old_ps[i].owner_id
                    &&& new_ps[i].members == old_ps[i].members
                    &&& new_ps[i].created_at == old_ps[i].created_at
                    &&& new_ps[i].files == files_view(files@)
                    &&& exists|t: u64| new_ps[i].updated_at == decimal(t as nat)
                    &&& res matches Ok(s) && s@ == spec_summary(new_ps[i], user_id@)
                }
            }
            &&& project_id is None ==> {
                let p = new_ps.last();
                &&& res is Ok
                &&& new_ps == old_ps.push(p)
                &&& is_uuid_text(p.id)
                &&& p.name == project_name@
                &&& p.directory == directory@
                &&& p.owner_id == user_id@
                &&& p.members == seq![ProjectMemberView { user_id: user_id@, role: Role::Owner }]
                &&& p.files == files_view(files@)
                &&& p.created_at == p.updated_at
                &&& exists|t: u64| p.created_at == decimal(t as nat)
                &&& res matches Ok(s) && s@ == spec_summary(p, user_id@)
            }
        }),
{
    let ts = now_ts();
    let ghost old_ps = projects_view(store.projects@);
    match project_id {
        Some(id) => {
            let i = find_project(&store.projects, id);
            proof {
                lemma_project_index(old_ps, id@);
            }
            if i >= store.projects.len() {
                let msg = String::from_str("Project not found: ");
                return Err(msg.concat(id));
            }
            let j = find_member(&store.projects[i].members, user_id);
            proof {
                lemma_member_index(old_ps[i as int].members, user_id@);
                assert(store.projects@[i as int]@ == old_ps[i as int]);
            }
            if j >= store.projects[i].members.len() {
                return Err(String::from_str("Access denied"));
            }
            if store.projects[i].members[j].role == Role::Viewer {
                return Err(String::from_str("Viewers cannot modify projects"));
            }
            let mut project = store.projects.remove(i);
            project.files = files;
            project.updated_at = ts;
            let ghost np = project@;
            store.projects.insert(i, project);
            proof {
                let new_ps = projects_view(store.projects@);
                assert(new_ps.len() == old_ps.len());
                assert forall|k: int| 0 <= k < old_ps.len() && k != i implies new_ps[k]
                    == old_ps[k] by {
                    if k < i {
                        assert(store.projects@[k] == old(store).projects@[k]);
                    } else {
                        assert(store.projects@[k] == old(store).projects@[k]);
                    }
                }
                assert(new_ps[i as int] == np);
            }
            let s = to_summary(&store.projects[i], user_id);
            proof {
                let new_ps = projects_view(store.projects@);
                lemma_member_index(new_ps[i as int].members, user_id@);
                assert(is_member(new_ps[i as int], user_id@));
                lemma_visible_exactly_members(new_ps, user_id@);
            }
            Ok(s)
        },
        None => {
            let new_id = new_uuid_v4();
            let mut members: Vec<ProjectMember> = Vec::new();
            members.push(ProjectMember { user_id: String::from_str(user_id), role: Role::Owner });
            let created_at = ts.clone();
            let project = Project {
                id: new_id,
                name: String::from_str(project_name),
                directory: String::from_str(directory),
                owner_id: String::from_str(user_id),
                members,
                files,
                created_at,
                updated_at: ts,
            };
            let ghost np = project@;
            assert(np.members =~= seq![ProjectMemberView { user_id: user_id@, role: Role::Owner }]);
            store.projects.push(project);
            let n = store.projects.len();
            proof {
                assert(projects_view(store.projects@) =~= old_ps.push(np));
            }
            let s = to_summary(&store.projects[n - 1], user_id);
            proof {
                let new_ps = projects_view(store.projects@);
                assert(new_ps[n - 1].members[0].user_id == user_id@);
                assert(is_member(new_ps[n - 1], user_id@));
                lemma_visible_exactly_members(new_ps, user_id@);
            }
            Ok(s)
        },
    }
}

} // verus!
