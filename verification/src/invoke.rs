//! Deciding how a staged unit is handed to the external processor: the
//! type code taken from the unit key selects a fixed argument template
//! binding the two converted files to their roles, an unrecognized code or
//! a missing role file skips the unit with a warning.

use vstd::prelude::*;

verus! {

/// The unit's type code selects the outfit-draping backend.
pub open spec fn is_ootd_key(key: Seq<char>) -> bool {
    key.len() >= 2 && key[0] == 'h' && key[1] == 'a'
}

/// The unit's type code selects the virtual-try-on backend.
pub open spec fn is_viton_key(key: Seq<char>) -> bool {
    key.len() >= 2 && key[0] == 't' && key[1] == 'o'
}

/// The unit's type code maps to some backend.
pub open spec fn recognized_key(key: Seq<char>) -> bool {
    is_ootd_key(key) || is_viton_key(key)
}

/// The argument template of the outfit-draping backend, with the two
/// converted files bound to their roles.
pub open spec fn ootd_args(model: Seq<char>, garment: Seq<char>) -> Seq<Seq<char>> {
    seq![
        "run_ootd.py"@,
        "--model_path"@,
        model,
        "--cloth_path"@,
        garment,
        "--scale"@,
        "0.5"@,
        "--sample"@,
        "1"@,
    ]
}

/// The argument template of the virtual-try-on backend, with the two
/// converted files bound to their roles.
pub open spec fn viton_args(model: Seq<char>, garment: Seq<char>) -> Seq<Seq<char>> {
    seq!["run_viton.py"@, "--model"@, model, "--garment"@, garment]
}

/// One external processor invocation: a program and its arguments.
pub struct Invocation {
    pub program: String,
    pub args: Vec<String>,
}

impl View for Invocation {
    type V = (Seq<char>, Seq<Seq<char>>);

    open spec fn view(&self) -> Self::V {
        (self.program@, self.args.deep_view())
    }
}

/// The invocation `inv` is the one owed to a unit with key `key` and
/// converted role files `model` and `garment`.
pub open spec fn invocation_matches(
    inv: (Seq<char>, Seq<Seq<char>>),
    key: Seq<char>,
    model: Seq<char>,
    garment: Seq<char>,
) -> bool {
    &&& inv.0 == "python"@
    &&& (is_ootd_key(key) ==> inv.1 == ootd_args(model, garment))
    &&& (is_viton_key(key) ==> inv.1 == viton_args(model, garment))
}

/// Resolves the invocation for a unit from its key's type code: the
/// backend's fixed argument template with the two converted file paths
/// bound to their named roles. `None` for an unrecognized code.
pub fn invocation_for(key: &str, model_path: &String, garment_path: &String) -> (r: Option<
    Invocation,
>)
    ensures
        match r {
            Some(inv) => recognized_key(key@) && invocation_matches(
                inv@,
                key@,
                model_path@,
                garment_path@,
            ),
            None => !recognized_key(key@),
        },
{
    let len: usize = key.unicode_len();
    if len < 2 {
        return None;
    }
    let c0 = key.get_char(0);
    let c1 = key.get_char(1);
    if c0 == 'h' && c1 == 'a' {
        let mut args: Vec<String> = Vec::new();
        args.push(String::from_str("run_ootd.py"));
        args.push(String::from_str("--model_path"));
        args.push(model_path.clone());
        args.push(String::from_str("--cloth_path"));
        args.push(garment_path.clone());
        args.push(String::from_str("--scale"));
        args.push(String::from_str("0.5"));
        args.push(String::from_str("--sample"));
        args.push(String::from_str("1"));
        assert(args.deep_view() =~= ootd_args(model_path@, garment_path@));
        Some(Invocation { program: String::from_str("python"), args })
    } else if c0 == 't' && c1 == 'o' {
        let mut args: Vec<String> = Vec::new();
        args.push(String::from_str("run_viton.py"));
        args.push(String::from_str("--model"));
        args.push(model_path.clone());
        args.push(String::from_str("--garment"));
        args.push(garment_path.clone());
        assert(args.deep_view() =~= viton_args(model_path@, garment_path@));
        Some(Invocation { program: String::from_str("python"), args })
    } else {
        None
    }
}

/// The fate decided for a staged unit.
pub enum UnitDecision {
    /// Both role files are present and the type code is recognized: run
    /// the resolved invocation.
    Invoke(Invocation),
    /// A role file is missing under the conventional name: skip the unit
    /// with a warning.
    MissingRoleFile,
    /// The type code maps to no backend: skip the unit with a warning.
    UnknownType,
}

/// Decides a staged unit's fate from its key and from whether the two
/// conventionally-named role files exist in its workspace: the invocation
/// is reached exactly when both exist and the type code is recognized.
pub fn decide_unit(
    key: &str,
    model_path: &String,
    garment_path: &String,
    model_exists: bool,
    garment_exists: bool,
) -> (r: UnitDecision)
    ensures
        match r {
            UnitDecision::Invoke(inv) => model_exists && garment_exists && recognized_key(key@)
                && invocation_matches(inv@, key@, model_path@, garment_path@),
            UnitDecision::MissingRoleFile => !model_exists || !garment_exists,
            UnitDecision::UnknownType => model_exists && garment_exists && !recognized_key(key@),
        },
{
    if !model_exists || !garment_exists {
        return UnitDecision::MissingRoleFile;
    }
    match invocation_for(key, model_path, garment_path) {
        Some(inv) => UnitDecision::Invoke(inv),
        None => UnitDecision::UnknownType,
    }
}

} // verus!
