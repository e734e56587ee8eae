//! The extraction pass over one archive: which members are admitted, which
//! compression methods are supported, how output files are named, and what
//! one pass over an archive's member list decides, member by member. The
//! caller carries the returned plan out by copying bytes; nothing here reads
//! or writes files.

use vstd::prelude::*;
use vstd::string::*;
use crate::member_path::MemberPath;
use crate::path_verifier::{PathVerifier, VerifierModel, report_lines};

verus! {

/// The compression method tag of one archive member, reduced to the cases
/// the pipeline distinguishes.
#[derive(Clone, Copy, Debug, PartialEq, Eq)]
pub enum CompressionMethod {
    Stored,
    Deflated,
    Deflate64,
    Bzip2,
    /// Any method the pipeline cannot decompress.
    Other,
}

/// The supported set: store, deflate, deflate64 and bzip2.
pub open spec fn spec_supported(m: CompressionMethod) -> bool {
    !(m matches CompressionMethod::Other)
}

/// Checks whether a member's compression method is supported.
pub fn supported_compression_method(m: &CompressionMethod) -> (r: bool)
    ensures
        r == spec_supported(*m),
{
    match m {
        CompressionMethod::Other => false,
        _ => true,
    }
}

/// One member of an archive, as far as the pass judges it: its path and its
/// compression method tag.
pub struct MemberEntry {
    pub path: MemberPath,
    pub method: CompressionMethod,
}

/// Mathematical content of a [`MemberEntry`].
pub ghost struct MemberModel {
    pub path: Seq<Seq<char>>,
    pub method: CompressionMethod,
}

impl View for MemberEntry {
    type V = MemberModel;

    open spec fn view(&self) -> MemberModel {
        MemberModel { path: self.path@, method: self.method }
    }
}

impl DeepView for MemberEntry {
    type V = MemberModel;

    open spec fn deep_view(&self) -> MemberModel {
        self@
    }
}

/// What the pass does with one member.
#[derive(Debug, PartialEq, Eq)]
pub enum MemberAction {
    /// Not admitted: not a target, already matched, or under a restricted folder.
    Skip,
    /// Admitted, but compressed with an unsupported method; no output file,
    /// and the target stays eligible.
    Unsupported,
    /// Admitted: copy the member's bytes to a file of this name.
    Extract(String),
}

/// Mathematical content of a [`MemberAction`].
pub ghost enum ActionModel {
    Skip,
    Unsupported,
    Extract(Seq<char>),
}

impl View for MemberAction {
    type V = ActionModel;

    open spec fn view(&self) -> ActionModel {
        match self {
            MemberAction::Skip => ActionModel::Skip,
            MemberAction::Unsupported => ActionModel::Unsupported,
            MemberAction::Extract(name) => ActionModel::Extract(name@),
        }
    }
}

impl DeepView for MemberAction {
    type V = ActionModel;

    open spec fn deep_view(&self) -> ActionModel {
        self@
    }
}

/// The output name of an extracted member: the archive identifier, a dash,
/// and the member's base file name.
pub open spec fn spec_output_name(zip_name: Seq<char>, base: Seq<char>) -> Seq<char> {
    zip_name + "-"@ + base
}

/// Derives the output file name `{zip_name}-{file_name}`.
pub fn output_file_name(zip_name: &str, file_name: &str) -> (r: String)
    ensures
        r@ == spec_output_name(zip_name@, file_name@),
{
    let mut r: String = zip_name.to_owned();
    r.append("-");
    r.append(file_name);
    r
}

/// The action one member gets, in the given verifier state.
pub open spec fn member_action(
    m: VerifierModel,
    zip_name: Seq<char>,
    e: MemberModel,
) -> ActionModel {
    if !m.admits(e.path) {
        ActionModel::Skip
    } else if !spec_supported(e.method) {
        ActionModel::Unsupported
    } else {
        ActionModel::Extract(spec_output_name(zip_name, e.path.last()))
    }
}

/// The verifier state one member leaves behind: only an extracted member
/// consumes its target's match flag.
pub open spec fn member_step(m: VerifierModel, e: MemberModel) -> VerifierModel {
    if m.admits(e.path) && spec_supported(e.method) {
        m.step(e.path)
    } else {
        m
    }
}

/// The verifier state after a pass over `members`, starting from `m0`.
pub open spec fn archive_state(m0: VerifierModel, members: Seq<MemberModel>) -> VerifierModel
    decreases members.len(),
{
    if members.len() == 0 {
        m0
    } else {
        member_step(archive_state(m0, members.drop_last()), members.last())
    }
}

/// The actions of a pass over `members`, one per member in order.
pub open spec fn archive_actions(
    m0: VerifierModel,
    zip_name: Seq<char>,
    members: Seq<MemberModel>,
) -> Seq<ActionModel>
    decreases members.len(),
{
    if members.len() == 0 {
        Seq::empty()
    } else {
        archive_actions(m0, zip_name, members.drop_last()).push(
            member_action(archive_state(m0, members.drop_last()), zip_name, members.last()),
        )
    }
}

/// Decides what to do with one member and updates the match state: an
/// admitted, supported member is extracted under its derived output name; an
/// admitted member with an unsupported method is skipped without consuming
/// its target's match flag; everything else is skipped.
pub fn process_member(
    verifier: &mut PathVerifier,
    zip_name: &String,
    entry: &MemberEntry,
) -> (r: MemberAction)
    requires
        old(verifier).inv(),
    ensures
        final(verifier).inv(),
        r@ == member_action(old(verifier)@, zip_name@, entry@),
        final(verifier)@ == member_step(old(verifier)@, entry@),
{
    if !supported_compression_method(&entry.method) {
        if verifier.check(&entry.path) {
            MemberAction::Unsupported
        } else {
            MemberAction::Skip
        }
    } else {
        if verifier.verify(&entry.path) {
            let name = output_file_name(zip_name.as_str(), entry.path.base_name().as_str());
            MemberAction::Extract(name)
        } else {
            MemberAction::Skip
        }
    }
}

/// One pass over an archive: resets the match state, decides an action for
/// every member in order, and reports the targets the archive did not
/// satisfy. Returns the actions (one per member) and the report lines.
pub fn process_archive(
    verifier: &mut PathVerifier,
    zip_name: &String,
    members: &Vec<MemberEntry>,
) -> (r: (Vec<MemberAction>, Vec<String>))
    requires
        old(verifier).inv(),
    ensures
        final(verifier).inv(),
        final(verifier)@ == archive_state(old(verifier)@.clear_matched(), members.deep_view()),
        r.0.deep_view() == archive_actions(
            old(verifier)@.clear_matched(),
            zip_name@,
            members.deep_view(),
        ),
        r.1.deep_view() == report_lines(
            final(verifier)@.targets,
            final(verifier)@.matched,
            zip_name@,
        ),
{
    let ghost mv = members.deep_view();
    verifier.reset();
    let ghost m0 = verifier@;
    let n = members.len();
    let mut actions: Vec<MemberAction> = Vec::new();
    let mut i: usize = 0;
    proof {
        assert(mv.take(0) =~= Seq::<MemberModel>::empty());
        assert(actions.deep_view() =~= archive_actions(m0, zip_name@, mv.take(0)));
    }
    while i < n
        invariant
            verifier.inv(),
            n == members@.len(),
            mv == members.deep_view(),
            i <= n,
            verifier@ == archive_state(m0, mv.take(i as int)),
            actions.deep_view() == archive_actions(m0, zip_name@, mv.take(i as int)),
        decreases n - i,
    {
        let ghost pre = actions.deep_view();
        let a = process_member(verifier, zip_name, &members[i]);
        actions.push(a);
        proof {
            assert(mv[i as int] == members@[i as int]@);
            assert(mv.take(i + 1).drop_last() =~= mv.take(i as int));
            assert(mv.take(i + 1).last() == mv[i as int]);
            assert(actions.deep_view() =~= pre.push(a@));
        }
        i = i + 1;
    }
    proof {
        assert(mv.take(n as int) =~= mv);
    }
    let report = verifier.print_progress(zip_name);
    (actions, report)
}

/// A member with an unsupported compression method is never extracted and
/// leaves the match state untouched, whatever else holds of it.
pub proof fn lemma_unsupported_consumes_nothing(
    m: VerifierModel,
    zip_name: Seq<char>,
    e: MemberModel,
)
    requires
        !spec_supported(e.method),
    ensures
        member_step(m, e) == m,
        !(member_action(m, zip_name, e) matches ActionModel::Extract(_)),
{
}

/// A name matched in `m0` is still matched after any pass continuation.
proof fn lemma_archive_state_matched_monotone(
    m0: VerifierModel,
    members: Seq<MemberModel>,
    n: Seq<char>,
)
    requires
        m0.matched.contains(n),
    ensures
        archive_state(m0, members).matched.contains(n),
    decreases members.len(),
{
    if members.len() > 0 {
        lemma_archive_state_matched_monotone(m0, members.drop_last(), n);
    }
}

/// The action at index `i` is taken in the state the first `i` members left.
proof fn lemma_archive_actions_index(
    m0: VerifierModel,
    zip_name: Seq<char>,
    members: Seq<MemberModel>,
    i: int,
)
    requires
        0 <= i < members.len(),
    ensures
        archive_actions(m0, zip_name, members).len() == members.len(),
        archive_actions(m0, zip_name, members)[i] == member_action(
            archive_state(m0, members.take(i)),
            zip_name,
            members[i],
        ),
    decreases members.len(),
{
    if i == members.len() - 1 {
        assert(members.drop_last() =~= members.take(i));
        if members.drop_last().len() > 0 {
            lemma_archive_actions_index(m0, zip_name, members.drop_last(), 0);
        }
        lemma_archive_actions_len(m0, zip_name, members.drop_last());
    } else {
        lemma_archive_actions_index(m0, zip_name, members.drop_last(), i);
        assert(members.drop_last().take(i) =~= members.take(i));
        lemma_archive_actions_len(m0, zip_name, members.drop_last());
    }
}

/// A pass yields one action per member.
proof fn lemma_archive_actions_len(m0: VerifierModel, zip_name: Seq<char>, members: Seq<MemberModel>)
    ensures
        archive_actions(m0, zip_name, members).len() == members.len(),
    decreases members.len(),
{
    if members.len() > 0 {
        lemma_archive_actions_len(m0, zip_name, members.drop_last());
    }
}

/// Once the member at `i` is extracted, its base name stays matched through
/// every later prefix of the same pass.
proof fn lemma_extract_matched_after(
    m0: VerifierModel,
    zip_name: Seq<char>,
    members: Seq<MemberModel>,
    i: int,
    j: int,
)
    requires
        0 <= i < j <= members.len(),
        (member_action(archive_state(m0, members.take(i)), zip_name, members[i])
            matches ActionModel::Extract(_)),
    ensures
        archive_state(m0, members.take(j)).matched.contains(members[i].path.last()),
    decreases j - i,
{
    if j == i + 1 {
        assert(members.take(i + 1).drop_last() =~= members.take(i));
        assert(members.take(i + 1).last() == members[i]);
    } else {
        lemma_extract_matched_after(m0, zip_name, members, i, j - 1);
        assert(members.take(j).drop_last() =~= members.take(j - 1));
        assert(members.take(j).last() == members[j - 1]);
    }
}

/// Within one pass over an archive, at most one member is extracted per
/// target base name: two extracted members always carry different base
/// names.
pub proof fn lemma_at_most_one_extract(
    m0: VerifierModel,
    zip_name: Seq<char>,
    members: Seq<MemberModel>,
    i: int,
    j: int,
)
    requires
        0 <= i < j < members.len(),
        (archive_actions(m0, zip_name, members)[i] matches ActionModel::Extract(_)),
        (archive_actions(m0, zip_name, members)[j] matches ActionModel::Extract(_)),
    ensures
        members[i].path.last() != members[j].path.last(),
{
    lemma_archive_actions_index(m0, zip_name, members, i);
    lemma_archive_actions_index(m0, zip_name, members, j);
    lemma_extract_matched_after(m0, zip_name, members, i, j);
}

} // verus!
