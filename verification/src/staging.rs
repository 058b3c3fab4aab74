//! Planning a unit's local staging: the workspace directory, the staged
//! path of each fetched member, and the canonical-format path each staged
//! file is normalized into.
//!
//! The layout is deterministic in the unit key: a workspace directory under
//! a fixed root, staged files named after the fetched object, converted
//! files with every trailing raster-source extension stripped and the
//! canonical extension appended, and role files named from the unit key.

use vstd::prelude::*;
use crate::ids::file_name;
use crate::ids::file_name_of;



verus! {

/// `s` ends with `suffix`.
pub open spec fn ends_with(s: Seq<char>, suffix: Seq<char>) -> bool {
    s.len() >= suffix.len() && s.subrange(s.len() - suffix.len(), s.len() as int) == suffix
}

/// The source extension stripped before normalization.
pub open spec fn png_ext() -> Seq<char> {
    seq!['.', 'p', 'n', 'g']
}

/// The canonical-format extension every staged file is normalized into.
pub open spec fn jpg_ext() -> Seq<char> {
    seq!['.', 'j', 'p', 'g']
}

/// A name with every trailing source extension stripped.
pub open spec fn strip_png(s: Seq<char>) -> Seq<char>
    decreases s.len(),
{
    if ends_with(s, png_ext()) {
        strip_png(s.subrange(0, s.len() - 4))
    } else {
        s
    }
}

/// The canonical-format name for a staged file: every trailing source
/// extension stripped, the canonical extension appended.
pub open spec fn converted_name(s: Seq<char>) -> Seq<char> {
    strip_png(s) + jpg_ext()
}

/// Appending the source extension to a name that does not end with it is
/// undone by exactly one stripping step.
pub proof fn lemma_strip_png_once(s: Seq<char>)
    requires
        !ends_with(s, png_ext()),
    ensures
        strip_png(s + png_ext()) == s,
{
    let t = s + png_ext();
    assert(t.subrange(t.len() - 4, t.len() as int) =~= png_ext());
    assert(ends_with(t, png_ext()));
    assert(t.subrange(0, s.len() as int) =~= s);
    assert(strip_png(s) == s);
}

/// A member named from the unit key, a role suffix and the source
/// extension converts into exactly the unit's role file for that role.
pub proof fn lemma_conversion_meets_role_file(
    dir: Seq<char>,
    key: Seq<char>,
    member: Seq<char>,
    role: Seq<char>,
)
    requires
        role == "model"@ || role == "garment"@,
        file_name_of(member) == key + "___"@ + role + png_ext(),
    ensures
        converted_name(dir + "/"@ + file_name_of(member)) == dir + "/"@ + role_name(key, role),
{
    reveal_strlit("model");
    reveal_strlit("garment");
    let stem = dir + "/"@ + key + "___"@ + role;
    let staged = dir + "/"@ + file_name_of(member);
    assert(staged =~= stem + png_ext());
    assert(stem[stem.len() - 1] == role[role.len() - 1]);
    if ends_with(stem, png_ext()) {
        assert(stem.subrange(stem.len() - 4, stem.len() as int)[3] == stem[stem.len() - 1]);
        assert(false);
    }
    lemma_strip_png_once(stem);
    assert(dir + "/"@ + role_name(key, role) =~= stem + jpg_ext());
}

/// A ready unit whose two members are named from its key with the "model"
/// and "garment" role suffixes and the source extension is staged so that
/// conversion produces exactly the two role files the invocation step
/// looks for: the unit reaches invocation with both files existing under
/// their conventional names.
pub proof fn lemma_pair_reaches_invocation_files(
    p: (Seq<char>, Seq<(Seq<char>, Seq<char>, Seq<char>)>, Seq<char>, Seq<char>),
    key: Seq<char>,
    members: Seq<Seq<char>>,
)
    requires
        unit_plan_matches(p, key, members),
        members.len() == 2,
        file_name_of(members[0]) == key + "___"@ + "model"@ + png_ext(),
        file_name_of(members[1]) == key + "___"@ + "garment"@ + png_ext(),
    ensures
        p.1[0].2 == p.2,
        p.1[1].2 == p.3,
{
    let dir = "temp/images/"@ + key;
    lemma_conversion_meets_role_file(dir, key, members[0], "model"@);
    lemma_conversion_meets_role_file(dir, key, members[1], "garment"@);
    assert(p.1[0] == planned_member(dir, members[0]));
    assert(p.1[1] == planned_member(dir, members[1]));
}

/// Whether `s` ends with the source extension.
fn ends_with_png(s: &str) -> (r: bool)
    ensures
        r == ends_with(s@, png_ext()),
{
    let len: usize = s.unicode_len();
    if len < 4 {
        return false;
    }
    let r = s.get_char(len - 4) == '.' && s.get_char(len - 3) == 'p' && s.get_char(len - 2) == 'n'
        && s.get_char(len - 1) == 'g';
    proof {
        let tail = s@.subrange(len - 4, len as int);
        if r {
            assert(tail =~= png_ext());
        } else {
            assert(tail[0] == s@[len - 4]);
            assert(tail[1] == s@[len - 3]);
            assert(tail[2] == s@[len - 2]);
            assert(tail[3] == s@[len - 1]);
        }
    }
    r
}

/// The canonical-format path for the staged file at `path`.
pub fn converted_path(path: &str) -> (r: String)
    ensures
        r@ == converted_name(path@),
{
    let mut cur: String = path.to_owned();
    while ends_with_png(cur.as_str())
        invariant
            strip_png(path@) == strip_png(cur@),
        decreases cur@.len(),
    {
        let len: usize = cur.as_str().unicode_len();
        cur = String::from_str(cur.as_str().substring_char(0, len - 4));
    }
    proof {
        reveal_strlit(".jpg");
        assert(".jpg"@ =~= jpg_ext());
    }
    cur.concat(".jpg")
}

/// The workspace directory for a unit, under the fixed staging root.
pub fn workspace_dir(key: &str) -> (r: String)
    ensures
        r@ == "temp/images/"@ + key@,
{
    String::from_str("temp/images/").concat(key)
}

/// A path inside `dir` for the plain file `name`.
pub fn path_in_dir(dir: &str, name: &str) -> (r: String)
    ensures
        r@ == dir@ + "/"@ + name@,
{
    let r = String::from_str(dir).concat("/").concat(name);
    assert(r@ =~= dir@ + "/"@ + name@);
    r
}

/// The name of a unit's converted file in the given role.
pub open spec fn role_name(key: Seq<char>, role: Seq<char>) -> Seq<char> {
    key + "___"@ + role + jpg_ext()
}

/// The path of the unit's converted file in the "model" role.
pub fn model_file(dir: &str, key: &str) -> (r: String)
    ensures
        r@ == dir@ + "/"@ + role_name(key@, "model"@),
{
    let r = String::from_str(dir).concat("/").concat(key).concat("___model.jpg");
    proof {
        reveal_strlit("___model.jpg");
        reveal_strlit("___");
        reveal_strlit("model");
        reveal_strlit(".jpg");
        assert(".jpg"@ =~= jpg_ext());
        assert("___model.jpg"@ =~= "___"@ + "model"@ + jpg_ext());
        assert(r@ =~= dir@ + "/"@ + role_name(key@, "model"@));
    }
    r
}

/// The path of the unit's converted file in the "garment" role.
pub fn garment_file(dir: &str, key: &str) -> (r: String)
    ensures
        r@ == dir@ + "/"@ + role_name(key@, "garment"@),
{
    let r = String::from_str(dir).concat("/").concat(key).concat("___garment.jpg");
    proof {
        reveal_strlit("___garment.jpg");
        reveal_strlit("___");
        reveal_strlit("garment");
        reveal_strlit(".jpg");
        assert(".jpg"@ =~= jpg_ext());
        assert("___garment.jpg"@ =~= "___"@ + "garment"@ + jpg_ext());
        assert(r@ =~= dir@ + "/"@ + role_name(key@, "garment"@));
    }
    r
}

/// The staging steps planned for one member of a unit.
pub struct MemberPlan {
    /// The object to fetch from the store.
    pub remote_key: String,
    /// Where the fetched bytes are staged inside the workspace.
    pub staged_path: String,
    /// Where the normalized copy of the staged file ends up.
    pub converted_path: String,
}

impl View for MemberPlan {
    type V = (Seq<char>, Seq<char>, Seq<char>);

    open spec fn view(&self) -> Self::V {
        (self.remote_key@, self.staged_path@, self.converted_path@)
    }
}

impl DeepView for MemberPlan {
    type V = (Seq<char>, Seq<char>, Seq<char>);

    open spec fn deep_view(&self) -> Self::V {
        self.view()
    }
}

/// The staging plan a member with a usable file name gets.
pub open spec fn planned_member(dir: Seq<char>, member: Seq<char>) -> (Seq<char>, Seq<char>, Seq<char>) {
    (member, dir + "/"@ + file_name_of(member), converted_name(dir + "/"@ + file_name_of(member)))
}

/// Plans the staging of one member inside workspace `dir`: fetch the
/// object, stage it under its plain file name, normalize it in place.
/// `None` for a member whose plain file name is empty.
pub fn member_plan(dir: &str, member: &String) -> (r: Option<MemberPlan>)
    ensures
        match r {
            Some(p) => file_name_of(member@).len() > 0 && p@ == planned_member(dir@, member@),
            None => file_name_of(member@).len() == 0,
        },
{
    match file_name(member.as_str()) {
        Some(name) => {
            let staged = path_in_dir(dir, name.as_str());
            let converted = converted_path(staged.as_str());
            Some(
                MemberPlan {
                    remote_key: member.clone(),
                    staged_path: staged,
                    converted_path: converted,
                },
            )
        },
        None => None,
    }
}

/// Why a unit's staging could not be planned.
#[derive(Clone, Copy, Debug, PartialEq, Eq, Structural)]
pub enum StageError {
    /// A member's plain file name is empty.
    InvalidFileName,
}

impl StageError {
    /// A reader-facing description of the failure.
    pub fn message(&self) -> (r: String)
        ensures
            r@ == "invalid file name"@,
    {
        String::from_str("invalid file name")
    }
}

/// Everything the loop needs to stage and hand off one ready unit.
pub struct UnitPlan {
    /// The unit's workspace directory.
    pub workspace: String,
    /// The staging steps of the members, in member order.
    pub members: Vec<MemberPlan>,
    /// The conventional path of the converted "model" role file.
    pub model_file: String,
    /// The conventional path of the converted "garment" role file.
    pub garment_file: String,
}

impl View for UnitPlan {
    type V = (Seq<char>, Seq<(Seq<char>, Seq<char>, Seq<char>)>, Seq<char>, Seq<char>);

    open spec fn view(&self) -> Self::V {
        (self.workspace@, self.members.deep_view(), self.model_file@, self.garment_file@)
    }
}

/// The plan owed to a ready unit: a workspace under the fixed root, one
/// staging step per member, role files named from the key.
pub open spec fn unit_plan_matches(
    p: (Seq<char>, Seq<(Seq<char>, Seq<char>, Seq<char>)>, Seq<char>, Seq<char>),
    key: Seq<char>,
    members: Seq<Seq<char>>,
) -> bool {
    let dir = "temp/images/"@ + key;
    &&& p.0 == dir
    &&& p.1.len() == members.len()
    &&& (forall|m: int| 0 <= m < members.len() ==> (#[trigger] p.1[m]) == planned_member(
        dir,
        members[m],
    ))
    &&& p.2 == dir + "/"@ + role_name(key, "model"@)
    &&& p.3 == dir + "/"@ + role_name(key, "garment"@)
}

/// Plans one ready unit: its workspace, the staging of each member, and
/// the conventional role file paths the invocation step will look for.
/// Fails exactly when some member's plain file name is empty.
pub fn unit_plan(key: &String, members: &Vec<String>) -> (r: Result<UnitPlan, StageError>)
    requires
        members.deep_view().len() == 2,
    ensures
        match r {
            Ok(p) => unit_plan_matches(p@, key@, members.deep_view()) && (forall|m: int|
                0 <= m < members.deep_view().len() ==> file_name_of(
                    #[trigger] members.deep_view()[m],
                ).len() > 0),
            Err(e) => e == StageError::InvalidFileName && (exists|m: int|
                0 <= m < members.deep_view().len() && file_name_of(
                    #[trigger] members.deep_view()[m],
                ).len() == 0),
        },
{
    let dir = workspace_dir(key.as_str());
    let mut plans: Vec<MemberPlan> = Vec::new();
    let mut i: usize = 0;
    while i < members.len()
        invariant
            i <= members.len(),
            dir@ == "temp/images/"@ + key@,
            plans.deep_view().len() == i,
            forall|m: int|
                0 <= m < i ==> (#[trigger] plans.deep_view()[m]) == planned_member(
                    dir@,
                    members.deep_view()[m],
                ),
            forall|m: int| 0 <= m < i ==> file_name_of(#[trigger] members.deep_view()[m]).len() > 0,
        decreases members.len() - i,
    {
        let ghost prev = plans.deep_view();
        match member_plan(dir.as_str(), &members[i]) {
            Some(p) => {
                plans.push(p);
                assert(plans.deep_view() =~= prev.push(
                    planned_member(dir@, members.deep_view()[i as int]),
                ));
            },
            None => {
                assert(file_name_of(members.deep_view()[i as int]).len() == 0);
                return Err(StageError::InvalidFileName);
            },
        }
        i = i + 1;
    }
    let mf = model_file(dir.as_str(), key.as_str());
    let gf = garment_file(dir.as_str(), key.as_str());
    Ok(UnitPlan { workspace: dir, members: plans, model_file: mf, garment_file: gf })
}

} // verus!
