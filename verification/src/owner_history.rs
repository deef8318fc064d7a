//! Ownership metadata records: the owner history every independent
//! record can reference, the person-and-organization pair that owns
//! it, and the authoring application.

use crate::codec::{
    sp_quoted, chars_eq_str, expect_char, is_keyword_char, lemma_sp_kw_end_run, lemma_sp_ws_noop,
    lemma_subrange_slice, parse_keyword_at, skip_ws, sp_char, sp_keyword, sp_ws, ErrorKind,
    ParseError,
};
use crate::grammar::{
    lemma_enum_token_round_trip, lemma_id_round_trip, lemma_label_round_trip,
    lemma_opt_id_list_round_trip, lemma_opt_id_round_trip, lemma_opt_u64_round_trip,
    lemma_sp_opt_id_list_wf, lemma_stamp_round_trip, parse_enum_token_at, parse_id_at,
    parse_label_at, parse_opt_id_at, parse_opt_id_list_at, parse_opt_u64_at, parse_stamp_at,
    rd_enum_token, rd_id, rd_label, rd_opt_id, rd_opt_id_list, rd_opt_u64, render_id,
    render_label, render_opt_id, render_opt_id_list, render_opt_u64, sp_enum_token, sp_id,
    sp_opt_id, sp_opt_id_list, sp_opt_u64, sp_stamp, wf_id, wf_opt_id,
    wf_opt_id_list, IfcList, Label, OptionalParameter,
};
use crate::codec::{render_u64, rd_u64};
use crate::id::Id;
use crate::datamap::ParsedIfcType;
use vstd::prelude::*;

verus! {


/// The current access state of an object.
#[derive(Clone, Copy, PartialEq, Eq, Structural, Debug)]
pub enum AccessState {
    ReadWrite,
    ReadOnly,
    Locked,
    ReadWriteLocked,
    ReadOnlyLocked,
}

impl View for AccessState {
    type V = AccessState;

    open spec fn view(&self) -> AccessState {
        *self
    }
}

pub open spec fn rd_access_state(v: AccessState) -> Seq<char> {
    match v {
        AccessState::ReadWrite => rd_enum_token("READWRITE"@),
        AccessState::ReadOnly => rd_enum_token("READONLY"@),
        AccessState::Locked => rd_enum_token("LOCKED"@),
        AccessState::ReadWriteLocked => rd_enum_token("READWRITELOCKED"@),
        AccessState::ReadOnlyLocked => rd_enum_token("READONLYLOCKED"@),
    }
}

pub open spec fn sp_access_state(s: Seq<char>, i: int) -> Option<(AccessState, int)> {
    match sp_enum_token(s, i) {
        None => None,
        Some((tok, e)) => {
            if tok == "READWRITE"@ {
                Some((AccessState::ReadWrite, e))
            } else if tok == "READONLY"@ {
                Some((AccessState::ReadOnly, e))
            } else if tok == "LOCKED"@ {
                Some((AccessState::Locked, e))
            } else if tok == "READWRITELOCKED"@ {
                Some((AccessState::ReadWriteLocked, e))
            } else if tok == "READONLYLOCKED"@ {
                Some((AccessState::ReadOnlyLocked, e))
            } else {
                None
            }
        },
    }
}

pub proof fn lemma_access_state_round_trip(s: Seq<char>, i: int, v: AccessState)
    requires
        0 <= i,
        i + rd_access_state(v).len() <= s.len(),
        s.subrange(i, i + rd_access_state(v).len()) == rd_access_state(v),
    ensures
        sp_access_state(s, i) == Some((v, i + rd_access_state(v).len())),
{
    reveal_strlit("READWRITE");
    reveal_strlit("READONLY");
    reveal_strlit("LOCKED");
    reveal_strlit("READWRITELOCKED");
    reveal_strlit("READONLYLOCKED");
    match v {
        AccessState::ReadWrite => {
            lemma_enum_token_round_trip(s, i, "READWRITE"@);
        },
        AccessState::ReadOnly => {
            lemma_enum_token_round_trip(s, i, "READONLY"@);
        },
        AccessState::Locked => {
            lemma_enum_token_round_trip(s, i, "LOCKED"@);
        },
        AccessState::ReadWriteLocked => {
            lemma_enum_token_round_trip(s, i, "READWRITELOCKED"@);
        },
        AccessState::ReadOnlyLocked => {
            lemma_enum_token_round_trip(s, i, "READONLYLOCKED"@);
        },
    }
}

pub fn parse_access_state_at(s: &Vec<char>, pos: usize) -> (r: Result<(AccessState, usize), ParseError>)
    requires
        pos <= s@.len(),
    ensures
        match r {
            Ok((v, j)) => sp_access_state(s@, pos as int) == Some((v, j as int)) && pos <= j
                <= s@.len(),
            Err(_) => sp_access_state(s@, pos as int) is None,
        },
{
    let (tok, e) = parse_enum_token_at(s, pos)?;
    if chars_eq_str(&tok, "READWRITE") {
        Ok((AccessState::ReadWrite, e))
    } else if chars_eq_str(&tok, "READONLY") {
        Ok((AccessState::ReadOnly, e))
    } else if chars_eq_str(&tok, "LOCKED") {
        Ok((AccessState::Locked, e))
    } else if chars_eq_str(&tok, "READWRITELOCKED") {
        Ok((AccessState::ReadWriteLocked, e))
    } else if chars_eq_str(&tok, "READONLYLOCKED") {
        Ok((AccessState::ReadOnlyLocked, e))
    } else {
        Err(ParseError { pos: e, kind: ErrorKind::UnexpectedToken })
    }
}

pub fn render_access_state(v: AccessState, out: &mut Vec<char>)
    ensures
        final(out)@ == old(out)@ + rd_access_state(v),
{
    let ghost o0 = out@;
    match v {
        AccessState::ReadWrite => {
            out.push('.');
            out.push('R');
            out.push('E');
            out.push('A');
            out.push('D');
            out.push('W');
            out.push('R');
            out.push('I');
            out.push('T');
            out.push('E');
            out.push('.');
            proof {
                reveal_strlit("READWRITE");
                assert(out@ =~= o0 + rd_access_state(v));
            }
        },
        AccessState::ReadOnly => {
            out.push('.');
            out.push('R');
            out.push('E');
            out.push('A');
            out.push('D');
            out.push('O');
            out.push('N');
            out.push('L');
            out.push('Y');
            out.push('.');
            proof {
                reveal_strlit("READONLY");
                assert(out@ =~= o0 + rd_access_state(v));
            }
        },
        AccessState::Locked => {
            out.push('.');
            out.push('L');
            out.push('O');
            out.push('C');
            out.push('K');
            out.push('E');
            out.push('D');
            out.push('.');
            proof {
                reveal_strlit("LOCKED");
                assert(out@ =~= o0 + rd_access_state(v));
            }
        },
        AccessState::ReadWriteLocked => {
            out.push('.');
            out.push('R');
            out.push('E');
            out.push('A');
            out.push('D');
            out.push('W');
            out.push('R');
            out.push('I');
            out.push('T');
            out.push('E');
            out.push('L');
            out.push('O');
            out.push('C');
            out.push('K');
            out.push('E');
            out.push('D');
            out.push('.');
            proof {
                reveal_strlit("READWRITELOCKED");
                assert(out@ =~= o0 + rd_access_state(v));
            }
        },
        AccessState::ReadOnlyLocked => {
            out.push('.');
            out.push('R');
            out.push('E');
            out.push('A');
            out.push('D');
            out.push('O');
            out.push('N');
            out.push('L');
            out.push('Y');
            out.push('L');
            out.push('O');
            out.push('C');
            out.push('K');
            out.push('E');
            out.push('D');
            out.push('.');
            proof {
                reveal_strlit("READONLYLOCKED");
                assert(out@ =~= o0 + rd_access_state(v));
            }
        },
    }
}

/// An optional enumerated attribute: `$`, or the constant.
pub open spec fn sp_opt_access_state(s: Seq<char>, i: int) -> Option<(Option<AccessState>, int)> {
    let j = sp_ws(s, i);
    if j < s.len() && s[j] == '$' {
        Some((None, j + 1))
    } else {
        match sp_access_state(s, i) {
            Some((v, e)) => Some((Some(v), e)),
            None => None,
        }
    }
}

pub open spec fn rd_opt_access_state(v: Option<AccessState>) -> Seq<char> {
    match v {
        None => seq!['$'],
        Some(c) => rd_access_state(c),
    }
}

pub proof fn lemma_opt_access_state_round_trip(s: Seq<char>, i: int, v: Option<AccessState>)
    requires
        0 <= i,
        i + rd_opt_access_state(v).len() <= s.len(),
        s.subrange(i, i + rd_opt_access_state(v).len()) == rd_opt_access_state(v),
    ensures
        sp_opt_access_state(s, i) == Some((v, i + rd_opt_access_state(v).len())),
{
    assert(s[i] == rd_opt_access_state(v)[0]);
    match v {
        None => {
            assert(s[i] == '$');
            lemma_sp_ws_noop(s, i);
        },
        Some(c) => {
            assert(s[i] == '.');
            lemma_sp_ws_noop(s, i);
            lemma_access_state_round_trip(s, i, c);
        },
    }
}

pub fn parse_opt_access_state_at(s: &Vec<char>, pos: usize) -> (r: Result<
    (OptionalParameter<AccessState>, usize),
    ParseError,
>)
    requires
        pos <= s@.len(),
    ensures
        match r {
            Ok((v, j)) => sp_opt_access_state(s@, pos as int) == Some((v@, j as int)) && pos <= j
                <= s@.len(),
            Err(_) => sp_opt_access_state(s@, pos as int) is None,
        },
{
    let start = skip_ws(s, pos);
    if start < s.len() && s[start] == '$' {
        Ok((OptionalParameter::Omitted, start + 1))
    } else {
        match parse_access_state_at(s, pos) {
            Ok((v, j)) => Ok((OptionalParameter::Custom(v), j)),
            Err(e) => Err(e),
        }
    }
}

pub fn render_opt_access_state(v: &OptionalParameter<AccessState>, out: &mut Vec<char>)
    ensures
        final(out)@ == old(out)@ + rd_opt_access_state(v@),
{
    match v {
        OptionalParameter::Omitted => {
            out.push('$');
            assert(final(out)@ =~= old(out)@ + rd_opt_access_state(v@));
        },
        OptionalParameter::Custom(c) => {
            render_access_state(*c, out);
        },
    }
}

/// The actions associated with changes made to an object.
#[derive(Clone, Copy, PartialEq, Eq, Structural, Debug)]
pub enum ChangeAction {
    NoChange,
    Modified,
    Added,
    Deleted,
    NotDefined,
}

impl View for ChangeAction {
    type V = ChangeAction;

    open spec fn view(&self) -> ChangeAction {
        *self
    }
}

pub open spec fn rd_change_action(v: ChangeAction) -> Seq<char> {
    match v {
        ChangeAction::NoChange => rd_enum_token("NOCHANGE"@),
        ChangeAction::Modified => rd_enum_token("MODIFIED"@),
        ChangeAction::Added => rd_enum_token("ADDED"@),
        ChangeAction::Deleted => rd_enum_token("DELETED"@),
        ChangeAction::NotDefined => rd_enum_token("NOTDEFINED"@),
    }
}

pub open spec fn sp_change_action(s: Seq<char>, i: int) -> Option<(ChangeAction, int)> {
    match sp_enum_token(s, i) {
        None => None,
        Some((tok, e)) => {
            if tok == "NOCHANGE"@ {
                Some((ChangeAction::NoChange, e))
            } else if tok == "MODIFIED"@ {
                Some((ChangeAction::Modified, e))
            } else if tok == "ADDED"@ {
                Some((ChangeAction::Added, e))
            } else if tok == "DELETED"@ {
                Some((ChangeAction::Deleted, e))
            } else if tok == "NOTDEFINED"@ {
                Some((ChangeAction::NotDefined, e))
            } else {
                None
            }
        },
    }
}

pub proof fn lemma_change_action_round_trip(s: Seq<char>, i: int, v: ChangeAction)
    requires
        0 <= i,
        i + rd_change_action(v).len() <= s.len(),
        s.subrange(i, i + rd_change_action(v).len()) == rd_change_action(v),
    ensures
        sp_change_action(s, i) == Some((v, i + rd_change_action(v).len())),
{
    reveal_strlit("NOCHANGE");
    reveal_strlit("MODIFIED");
    reveal_strlit("ADDED");
    reveal_strlit("DELETED");
    reveal_strlit("NOTDEFINED");
    match v {
        ChangeAction::NoChange => {
            lemma_enum_token_round_trip(s, i, "NOCHANGE"@);
        },
        ChangeAction::Modified => {
            lemma_enum_token_round_trip(s, i, "MODIFIED"@);
            assert("MODIFIED"@[0] != "NOCHANGE"@[0]);
        },
        ChangeAction::Added => {
            lemma_enum_token_round_trip(s, i, "ADDED"@);
        },
        ChangeAction::Deleted => {
            lemma_enum_token_round_trip(s, i, "DELETED"@);
        },
        ChangeAction::NotDefined => {
            lemma_enum_token_round_trip(s, i, "NOTDEFINED"@);
        },
    }
}

pub fn parse_change_action_at(s: &Vec<char>, pos: usize) -> (r: Result<(ChangeAction, usize), ParseError>)
    requires
        pos <= s@.len(),
    ensures
        match r {
            Ok((v, j)) => sp_change_action(s@, pos as int) == Some((v, j as int)) && pos <= j
                <= s@.len(),
            Err(_) => sp_change_action(s@, pos as int) is None,
        },
{
    let (tok, e) = parse_enum_token_at(s, pos)?;
    if chars_eq_str(&tok, "NOCHANGE") {
        Ok((ChangeAction::NoChange, e))
    } else if chars_eq_str(&tok, "MODIFIED") {
        Ok((ChangeAction::Modified, e))
    } else if chars_eq_str(&tok, "ADDED") {
        Ok((ChangeAction::Added, e))
    } else if chars_eq_str(&tok, "DELETED") {
        Ok((ChangeAction::Deleted, e))
    } else if chars_eq_str(&tok, "NOTDEFINED") {
        Ok((ChangeAction::NotDefined, e))
    } else {
        Err(ParseError { pos: e, kind: ErrorKind::UnexpectedToken })
    }
}

pub fn render_change_action(v: ChangeAction, out: &mut Vec<char>)
    ensures
        final(out)@ == old(out)@ + rd_change_action(v),
{
    let ghost o0 = out@;
    match v {
        ChangeAction::NoChange => {
            out.push('.');
            out.push('N');
            out.push('O');
            out.push('C');
            out.push('H');
            out.push('A');
            out.push('N');
            out.push('G');
            out.push('E');
            out.push('.');
            proof {
                reveal_strlit("NOCHANGE");
                assert(out@ =~= o0 + rd_change_action(v));
            }
        },
        ChangeAction::Modified => {
            out.push('.');
            out.push('M');
            out.push('O');
            out.push('D');
            out.push('I');
            out.push('F');
            out.push('I');
            out.push('E');
            out.push('D');
            out.push('.');
            proof {
                reveal_strlit("MODIFIED");
                assert(out@ =~= o0 + rd_change_action(v));
            }
        },
        ChangeAction::Added => {
            out.push('.');
            out.push('A');
            out.push('D');
            out.push('D');
            out.push('E');
            out.push('D');
            out.push('.');
            proof {
                reveal_strlit("ADDED");
                assert(out@ =~= o0 + rd_change_action(v));
            }
        },
        ChangeAction::Deleted => {
            out.push('.');
            out.push('D');
            out.push('E');
            out.push('L');
            out.push('E');
            out.push('T');
            out.push('E');
            out.push('D');
            out.push('.');
            proof {
                reveal_strlit("DELETED");
                assert(out@ =~= o0 + rd_change_action(v));
            }
        },
        ChangeAction::NotDefined => {
            out.push('.');
            out.push('N');
            out.push('O');
            out.push('T');
            out.push('D');
            out.push('E');
            out.push('F');
            out.push('I');
            out.push('N');
            out.push('E');
            out.push('D');
            out.push('.');
            proof {
                reveal_strlit("NOTDEFINED");
                assert(out@ =~= o0 + rd_change_action(v));
            }
        },
    }
}

/// All history and identification related information of an object.
#[derive(Clone, PartialEq, Eq, Debug)]
pub struct OwnerHistory {
    /// Reference to the end user who currently owns this object.
    pub owning_user: Id,
    /// Reference to the application which currently owns this object.
    pub owning_application: Id,
    /// The current access state of the object.
    pub state: OptionalParameter<AccessState>,
    /// The actions associated with changes made to the object.
    pub change_action: ChangeAction,
    /// Date and time at which the last modification occurred.
    pub last_modified_date: OptionalParameter<u64>,
    /// Reference to the user who carried out the last modification.
    pub last_modifying_user: OptionalParameter<Id>,
    /// Reference to the application used for the last modification.
    pub last_modifying_application: OptionalParameter<Id>,
    /// Time and date of creation.
    pub creation_date: u64,
}

/// The mathematical content of a [`OwnerHistory`].
pub struct OwnerHistoryV {
    pub owning_user: u64,
    pub owning_application: u64,
    pub state: Option<AccessState>,
    pub change_action: ChangeAction,
    pub last_modified_date: Option<u64>,
    pub last_modifying_user: Option<u64>,
    pub last_modifying_application: Option<u64>,
    pub creation_date: u64,
}

impl View for OwnerHistory {
    type V = OwnerHistoryV;

    open spec fn view(&self) -> OwnerHistoryV {
        OwnerHistoryV {
            owning_user: self.owning_user@,
            owning_application: self.owning_application@,
            state: self.state@,
            change_action: self.change_action@,
            last_modified_date: self.last_modified_date@,
            last_modifying_user: self.last_modifying_user@,
            last_modifying_application: self.last_modifying_application@,
            creation_date: self.creation_date@,
        }
    }
}

pub open spec fn kw_owner_history() -> Seq<char> {
    "IFCOWNERHISTORY"@
}

/// Validity of the references and literals a record holds.
pub open spec fn wf_owner_history(v: OwnerHistoryV) -> bool {
    &&& wf_id(v.owning_user)
    &&& wf_id(v.owning_application)
    &&& wf_opt_id(v.last_modifying_user)
    &&& wf_opt_id(v.last_modifying_application)
}

/// The canonical text of this record.
pub open spec fn rd_owner_history(v: OwnerHistoryV) -> Seq<char> {
    kw_owner_history() + seq!['('] + rd_id(v.owning_user) + seq![','] + rd_id(v.owning_application) + seq![','] + rd_opt_access_state(v.state) + seq![','] + rd_change_action(v.change_action) + seq![','] + rd_opt_u64(v.last_modified_date) + seq![','] + rd_opt_id(v.last_modifying_user) + seq![','] + rd_opt_id(v.last_modifying_application) + seq![','] + rd_u64(v.creation_date) + seq![')', ';']
}

/// The attribute list after the keyword.
pub open spec fn sp_owner_history_body(s: Seq<char>, i: int) -> Option<(OwnerHistoryV, int)> {
    match sp_char(s, i, '(') {
        None => None,
        Some(p1) => {
            match sp_id(s, p1) {
                None => None,
                Some((a_owning_user, p2)) => {
                    match sp_char(s, p2, ',') {
                        None => None,
                        Some(p3) => {
                            match sp_id(s, p3) {
                                None => None,
                                Some((a_owning_application, p4)) => {
                                    match sp_char(s, p4, ',') {
                                        None => None,
                                        Some(p5) => {
                                            match sp_opt_access_state(s, p5) {
                                                None => None,
                                                Some((a_state, p6)) => {
                                                    match sp_char(s, p6, ',') {
                                                        None => None,
                                                        Some(p7) => {
                                                            match sp_change_action(s, p7) {
                                                                None => None,
                                                                Some((a_change_action, p8)) => {
                                                                    match sp_char(s, p8, ',') {
                                                                        None => None,
                                                                        Some(p9) => {
                                                                            match sp_opt_u64(s, p9) {
                                                                                None => None,
                                                                                Some((a_last_modified_date, p10)) => {
                                                                                    match sp_char(s, p10, ',') {
                                                                                        None => None,
                                                                                        Some(p11) => {
                                                                                            match sp_opt_id(s, p11) {
                                                                                                None => None,
                                                                                                Some((a_last_modifying_user, p12)) => {
                                                                                                    match sp_char(s, p12, ',') {
                                                                                                        None => None,
                                                                                                        Some(p13) => {
                                                                                                            match sp_opt_id(s, p13) {
                                                                                                                None => None,
                                                                                                                Some((a_last_modifying_application, p14)) => {
                                                                                                                    match sp_char(s, p14, ',') {
                                                                                                                        None => None,
                                                                                                                        Some(p15) => {
                                                                                                                            match sp_stamp(s, p15) {
                                                                                                                                None => None,
                                                                                                                                Some((a_creation_date, p16)) => {
                                                                                                                                    match sp_char(s, p16, ')') {
                                                                                                                                        None => None,
                                                                                                                                        Some(p17) => {
                                                                                                                                            match sp_char(s, p17, ';') {
                                                                                                                                                None => None,
                                                                                                                                                Some(p18) => {
                                                                                                                                                    Some((OwnerHistoryV { owning_user: a_owning_user, owning_application: a_owning_application, state: a_state, change_action: a_change_action, last_modified_date: a_last_modified_date, last_modifying_user: a_last_modifying_user, last_modifying_application: a_last_modifying_application, creation_date: a_creation_date }, p18))
                                                                        },
                                                                    }
                                                                },
                                                            }
                                                        },
                                                    }
                                                },
                                            }
                                        },
                                    }
                                },
                            }
                        },
                    }
                },
            }
        },
    }
},
}
},
}
},
}
},
}
},
}
},
}
},
}
},
}
},
}
}

/// A whole record: the keyword, then the attributes.
pub open spec fn sp_owner_history(s: Seq<char>, i: int) -> Option<(OwnerHistoryV, int)> {
    let (kwtok, e) = sp_keyword(s, i);
    if kwtok == kw_owner_history() {
        sp_owner_history_body(s, e)
    } else {
        None
    }
}

/// A complete text holding exactly one record of this kind,
/// with nothing but whitespace after it.
pub open spec fn sp_owner_history_full(s: Seq<char>) -> Option<OwnerHistoryV> {
    match sp_owner_history(s, 0) {
        Some((v, e)) => if sp_ws(s, e) == s.len() {
            Some(v)
        } else {
            None
        },
        None => None,
    }
}

/// Parsing the canonical text of this record yields it back and
/// consumes exactly its text.
#[verifier::rlimit(100)]
pub proof fn lemma_owner_history_round_trip(s: Seq<char>, i: int, v: OwnerHistoryV)
    requires
        0 <= i,
        i + rd_owner_history(v).len() <= s.len(),
        s.subrange(i, i + rd_owner_history(v).len()) == rd_owner_history(v),
        wf_owner_history(v),
    ensures
        sp_owner_history(s, i) == Some((v, i + rd_owner_history(v).len())),
{
    reveal_strlit("IFCOWNERHISTORY");
    reveal_strlit("READWRITE");
    reveal_strlit("READONLY");
    reveal_strlit("LOCKED");
    reveal_strlit("READWRITELOCKED");
    reveal_strlit("READONLYLOCKED");
    reveal_strlit("NOCHANGE");
    reveal_strlit("MODIFIED");
    reveal_strlit("ADDED");
    reveal_strlit("DELETED");
    reveal_strlit("NOTDEFINED");
    let x = rd_owner_history(v);
    let l0 = rd_id(v.owning_user).len() as int;
    let l1 = rd_id(v.owning_application).len() as int;
    let l2 = rd_opt_access_state(v.state).len() as int;
    let l3 = rd_change_action(v.change_action).len() as int;
    let l4 = rd_opt_u64(v.last_modified_date).len() as int;
    let l5 = rd_opt_id(v.last_modifying_user).len() as int;
    let l6 = rd_opt_id(v.last_modifying_application).len() as int;
    let l7 = rd_u64(v.creation_date).len() as int;
    assert forall|t: int| 0 <= t < x.len() implies s[i + t] == x[t] by {
        assert(s.subrange(i, i + x.len())[t] == x[t]);
    }
    assert(s[i] == x[0]);
    lemma_sp_ws_noop(s, i);
    assert forall|t: int| i <= t < i + 15 implies is_keyword_char(#[trigger] s[t]) by {
        assert(s.subrange(i, i + x.len())[t - i] == x[t - i]);
        assert(s[t] == x[t - i]);
        assert(x[t - i] == kw_owner_history()[t - i]);
    }
    assert(s[i + 15] == x[15]);
    assert(x[15] == '(');
    lemma_sp_kw_end_run(s, i, i + 15);
    lemma_subrange_slice(s, i, x, 0, 15);
    assert(x.subrange(0, 15) =~= kw_owner_history());
    assert(sp_keyword(s, i) == (kw_owner_history(), i + 15));
    lemma_sp_ws_noop(s, i + 15);
    assert(sp_char(s, i + 15, '(') == Some(i + 16));
    let o0 = 16;
    lemma_subrange_slice(s, i, x, o0, o0 + l0);
    assert(x.subrange(o0, o0 + l0) =~= rd_id(v.owning_user));
    assert(x[o0 + l0] == ',');
    lemma_id_round_trip(s, i + o0, v.owning_user);
    lemma_sp_ws_noop(s, i + o0 + l0);
    assert(sp_char(s, i + o0 + l0, ',') == Some(i + o0 + l0 + 1));
    let o1 = o0 + l0 + 1;
    lemma_subrange_slice(s, i, x, o1, o1 + l1);
    assert(x.subrange(o1, o1 + l1) =~= rd_id(v.owning_application));
    assert(x[o1 + l1] == ',');
    lemma_id_round_trip(s, i + o1, v.owning_application);
    lemma_sp_ws_noop(s, i + o1 + l1);
    assert(sp_char(s, i + o1 + l1, ',') == Some(i + o1 + l1 + 1));
    let o2 = o1 + l1 + 1;
    lemma_subrange_slice(s, i, x, o2, o2 + l2);
    assert(x.subrange(o2, o2 + l2) =~= rd_opt_access_state(v.state));
    assert(x[o2 + l2] == ',');
    lemma_opt_access_state_round_trip(s, i + o2, v.state);
    lemma_sp_ws_noop(s, i + o2 + l2);
    assert(sp_char(s, i + o2 + l2, ',') == Some(i + o2 + l2 + 1));
    let o3 = o2 + l2 + 1;
    lemma_subrange_slice(s, i, x, o3, o3 + l3);
    assert(x.subrange(o3, o3 + l3) =~= rd_change_action(v.change_action));
    assert(x[o3 + l3] == ',');
    lemma_change_action_round_trip(s, i + o3, v.change_action);
    lemma_sp_ws_noop(s, i + o3 + l3);
    assert(sp_char(s, i + o3 + l3, ',') == Some(i + o3 + l3 + 1));
    let o4 = o3 + l3 + 1;
    lemma_subrange_slice(s, i, x, o4, o4 + l4);
    assert(x.subrange(o4, o4 + l4) =~= rd_opt_u64(v.last_modified_date));
    assert(x[o4 + l4] == ',');
    lemma_opt_u64_round_trip(s, i + o4, v.last_modified_date);
    lemma_sp_ws_noop(s, i + o4 + l4);
    assert(sp_char(s, i + o4 + l4, ',') == Some(i + o4 + l4 + 1));
    let o5 = o4 + l4 + 1;
    lemma_subrange_slice(s, i, x, o5, o5 + l5);
    assert(x.subrange(o5, o5 + l5) =~= rd_opt_id(v.last_modifying_user));
    assert(x[o5 + l5] == ',');
    lemma_opt_id_round_trip(s, i + o5, v.last_modifying_user);
    lemma_sp_ws_noop(s, i + o5 + l5);
    assert(sp_char(s, i + o5 + l5, ',') == Some(i + o5 + l5 + 1));
    let o6 = o5 + l5 + 1;
    lemma_subrange_slice(s, i, x, o6, o6 + l6);
    assert(x.subrange(o6, o6 + l6) =~= rd_opt_id(v.last_modifying_application));
    assert(x[o6 + l6] == ',');
    lemma_opt_id_round_trip(s, i + o6, v.last_modifying_application);
    lemma_sp_ws_noop(s, i + o6 + l6);
    assert(sp_char(s, i + o6 + l6, ',') == Some(i + o6 + l6 + 1));
    let o7 = o6 + l6 + 1;
    lemma_subrange_slice(s, i, x, o7, o7 + l7);
    assert(x.subrange(o7, o7 + l7) =~= rd_u64(v.creation_date));
    assert(x[o7 + l7] == ')');
    lemma_stamp_round_trip(s, i + o7, v.creation_date);
    lemma_sp_ws_noop(s, i + o7 + l7);
    assert(sp_char(s, i + o7 + l7, ')') == Some(i + o7 + l7 + 1));
    assert(x[o7 + l7 + 1] == ';');
    lemma_sp_ws_noop(s, i + o7 + l7 + 1);
    assert(sp_char(s, i + o7 + l7 + 1, ';') == Some(i + o7 + l7 + 1 + 1));
}

impl OwnerHistory {
    /// Parses one record of this kind starting at `pos`.
    pub fn parse_at(s: &Vec<char>, pos: usize) -> (r: Result<(Self, usize), ParseError>)
        requires
            pos <= s@.len(),
        ensures
            match r {
                Ok((m, j)) => sp_owner_history(s@, pos as int) == Some((m@, j as int)) && pos <= j
                    <= s@.len(),
                Err(_) => sp_owner_history(s@, pos as int) is None,
            },
    {
        let (kwtok, e) = parse_keyword_at(s, pos);
        if !chars_eq_str(&kwtok, "IFCOWNERHISTORY") {
            return Err(ParseError { pos: e, kind: ErrorKind::UnknownKeyword });
        }
        Self::parse_body_at(s, e)
    }

    /// Parses the attribute list after the keyword starting at `pos`.
    #[verifier::rlimit(80)]
    pub fn parse_body_at(s: &Vec<char>, pos: usize) -> (r: Result<(Self, usize), ParseError>)
        requires
            pos <= s@.len(),
        ensures
            match r {
                Ok((m, j)) => sp_owner_history_body(s@, pos as int) == Some((m@, j as int)) && pos <= j
                    <= s@.len(),
                Err(_) => sp_owner_history_body(s@, pos as int) is None,
            },
    {
        let p1 = expect_char(s, pos, '(')?;
        let (a_owning_user_raw, p2) = parse_id_at(s, p1)?;
        let a_owning_user = Id(a_owning_user_raw);
        let p3 = expect_char(s, p2, ',')?;
        let (a_owning_application_raw, p4) = parse_id_at(s, p3)?;
        let a_owning_application = Id(a_owning_application_raw);
        let p5 = expect_char(s, p4, ',')?;
        let (a_state, p6) = parse_opt_access_state_at(s, p5)?;
        let p7 = expect_char(s, p6, ',')?;
        let (a_change_action, p8) = parse_change_action_at(s, p7)?;
        let p9 = expect_char(s, p8, ',')?;
        let (a_last_modified_date, p10) = parse_opt_u64_at(s, p9)?;
        let p11 = expect_char(s, p10, ',')?;
        let (a_last_modifying_user, p12) = parse_opt_id_at(s, p11)?;
        let p13 = expect_char(s, p12, ',')?;
        let (a_last_modifying_application, p14) = parse_opt_id_at(s, p13)?;
        let p15 = expect_char(s, p14, ',')?;
        let (a_creation_date, p16) = parse_stamp_at(s, p15)?;
        let p17 = expect_char(s, p16, ')')?;
        let p18 = expect_char(s, p17, ';')?;
        Ok((OwnerHistory { owning_user: a_owning_user, owning_application: a_owning_application, state: a_state, change_action: a_change_action, last_modified_date: a_last_modified_date, last_modifying_user: a_last_modifying_user, last_modifying_application: a_last_modifying_application, creation_date: a_creation_date }, p18))
    }

    /// Parses a complete text that holds exactly one record of
    /// this kind.
    pub fn parse(s: &Vec<char>) -> (r: Result<Self, ParseError>)
        ensures
            match r {
                Ok(m) => sp_owner_history_full(s@) == Some(m@),
                Err(_) => sp_owner_history_full(s@) is None,
            },
    {
        match Self::parse_at(s, 0) {
            Ok((m, j)) => {
                let k = skip_ws(s, j);
                if k == s.len() {
                    Ok(m)
                } else {
                    Err(ParseError { pos: k, kind: ErrorKind::TrailingText })
                }
            },
            Err(e) => Err(e),
        }
    }

    /// Appends the canonical text of this record.
    #[verifier::rlimit(80)]
    pub fn render_into(&self, out: &mut Vec<char>)
        ensures
            final(out)@ == old(out)@ + rd_owner_history(self@),
    {
        let ghost o0 = out@;
        out.push('I');
        out.push('F');
        out.push('C');
        out.push('O');
        out.push('W');
        out.push('N');
        out.push('E');
        out.push('R');
        out.push('H');
        out.push('I');
        out.push('S');
        out.push('T');
        out.push('O');
        out.push('R');
        out.push('Y');
        proof {
            reveal_strlit("IFCOWNERHISTORY");
            assert(out@ =~= o0 + kw_owner_history());
        }
        out.push('(');
        render_id(self.owning_user.0, out);
        out.push(',');
        render_id(self.owning_application.0, out);
        out.push(',');
        render_opt_access_state(&self.state, out);
        out.push(',');
        render_change_action(self.change_action, out);
        out.push(',');
        render_opt_u64(&self.last_modified_date, out);
        out.push(',');
        render_opt_id(&self.last_modifying_user, out);
        out.push(',');
        render_opt_id(&self.last_modifying_application, out);
        out.push(',');
        render_u64(self.creation_date, out);
        out.push(')');
        out.push(';');
        proof {
            assert(out@ =~= o0 + rd_owner_history(self@));
        }
    }

    /// The canonical text of this record.
    pub fn render(&self) -> (out: Vec<char>)
        ensures
            out@ == rd_owner_history(self@),
    {
        let mut out: Vec<char> = Vec::new();
        self.render_into(&mut out);
        proof {
            assert(out@ =~= rd_owner_history(self@));
        }
        out
    }
}

/// Whatever this parser accepts is well formed.
#[verifier::rlimit(80)]
pub proof fn lemma_sp_owner_history_body_wf(s: Seq<char>, i: int)
    ensures
        sp_owner_history_body(s, i) matches Some(r) ==> wf_owner_history(r.0),
{
    if let Some(q1) = sp_char(s, i, '(') {
        if let Some((a_owning_user, q2)) = sp_id(s, q1) {
            if let Some(q3) = sp_char(s, q2, ',') {
                if let Some((a_owning_application, q4)) = sp_id(s, q3) {
                    if let Some(q5) = sp_char(s, q4, ',') {
                        if let Some((a_state, q6)) = sp_opt_access_state(s, q5) {
                            if let Some(q7) = sp_char(s, q6, ',') {
                                if let Some((a_change_action, q8)) = sp_change_action(s, q7) {
                                    if let Some(q9) = sp_char(s, q8, ',') {
                                        if let Some((a_last_modified_date, q10)) = sp_opt_u64(s, q9) {
                                            if let Some(q11) = sp_char(s, q10, ',') {
                                                if let Some((a_last_modifying_user, q12)) = sp_opt_id(s, q11) {
                                                    if let Some(q13) = sp_char(s, q12, ',') {
                                                        if let Some((a_last_modifying_application, q14)) = sp_opt_id(s, q13) {
                                                            if let Some(q15) = sp_char(s, q14, ',') {
                                                                if let Some((a_creation_date, q16)) = sp_stamp(s, q15) {
                                                                }
                                                            }
                                                        }
                                                    }
                                                }
                                            }
                                        }
                                    }
                                }
                            }
                        }
                    }
                }
            }
        }
    }
}

/// A person acting on behalf of an organization.
#[derive(Clone, PartialEq, Eq, Debug)]
pub struct PersonAndOrganization {
    /// Reference to the person who is related to the organization.
    pub the_person: Id,
    /// Reference to the organization the person is related to.
    pub the_organization: Id,
    /// References to the roles played by the pair.
    pub roles: OptionalParameter<IfcList<Id>>,
}

/// The mathematical content of a [`PersonAndOrganization`].
pub struct PersonAndOrganizationV {
    pub the_person: u64,
    pub the_organization: u64,
    pub roles: Option<Seq<u64>>,
}

impl View for PersonAndOrganization {
    type V = PersonAndOrganizationV;

    open spec fn view(&self) -> PersonAndOrganizationV {
        PersonAndOrganizationV {
            the_person: self.the_person@,
            the_organization: self.the_organization@,
            roles: self.roles@,
        }
    }
}

pub open spec fn kw_person_and_organization() -> Seq<char> {
    "IFCPERSONANDORGANIZATION"@
}

/// Validity of the references and literals a record holds.
pub open spec fn wf_person_and_organization(v: PersonAndOrganizationV) -> bool {
    &&& wf_id(v.the_person)
    &&& wf_id(v.the_organization)
    &&& wf_opt_id_list(v.roles)
}

/// The canonical text of this record.
pub open spec fn rd_person_and_organization(v: PersonAndOrganizationV) -> Seq<char> {
    kw_person_and_organization() + seq!['('] + rd_id(v.the_person) + seq![','] + rd_id(v.the_organization) + seq![','] + rd_opt_id_list(v.roles) + seq![')', ';']
}

/// The attribute list after the keyword.
pub open spec fn sp_person_and_organization_body(s: Seq<char>, i: int) -> Option<(PersonAndOrganizationV, int)> {
    match sp_char(s, i, '(') {
        None => None,
        Some(p1) => {
            match sp_id(s, p1) {
                None => None,
                Some((a_the_person, p2)) => {
                    match sp_char(s, p2, ',') {
                        None => None,
                        Some(p3) => {
                            match sp_id(s, p3) {
                                None => None,
                                Some((a_the_organization, p4)) => {
                                    match sp_char(s, p4, ',') {
                                        None => None,
                                        Some(p5) => {
                                            match sp_opt_id_list(s, p5) {
                                                None => None,
                                                Some((a_roles, p6)) => {
                                                    match sp_char(s, p6, ')') {
                                                        None => None,
                                                        Some(p7) => {
                                                            match sp_char(s, p7, ';') {
                                                                None => None,
                                                                Some(p8) => {
                                                                    Some((PersonAndOrganizationV { the_person: a_the_person, the_organization: a_the_organization, roles: a_roles }, p8))
                                },
                            }
                        },
                    }
                },
            }
        },
    }
},
}
},
}
},
}
},
}
}

/// A whole record: the keyword, then the attributes.
pub open spec fn sp_person_and_organization(s: Seq<char>, i: int) -> Option<(PersonAndOrganizationV, int)> {
    let (kwtok, e) = sp_keyword(s, i);
    if kwtok == kw_person_and_organization() {
        sp_person_and_organization_body(s, e)
    } else {
        None
    }
}

/// A complete text holding exactly one record of this kind,
/// with nothing but whitespace after it.
pub open spec fn sp_person_and_organization_full(s: Seq<char>) -> Option<PersonAndOrganizationV> {
    match sp_person_and_organization(s, 0) {
        Some((v, e)) => if sp_ws(s, e) == s.len() {
            Some(v)
        } else {
            None
        },
        None => None,
    }
}

/// Parsing the canonical text of this record yields it back and
/// consumes exactly its text.
#[verifier::rlimit(80)]
pub proof fn lemma_person_and_organization_round_trip(s: Seq<char>, i: int, v: PersonAndOrganizationV)
    requires
        0 <= i,
        i + rd_person_and_organization(v).len() <= s.len(),
        s.subrange(i, i + rd_person_and_organization(v).len()) == rd_person_and_organization(v),
        wf_person_and_organization(v),
    ensures
        sp_person_and_organization(s, i) == Some((v, i + rd_person_and_organization(v).len())),
{
    reveal_strlit("IFCPERSONANDORGANIZATION");
    let x = rd_person_and_organization(v);
    let l0 = rd_id(v.the_person).len() as int;
    let l1 = rd_id(v.the_organization).len() as int;
    let l2 = rd_opt_id_list(v.roles).len() as int;
    assert forall|t: int| 0 <= t < x.len() implies s[i + t] == x[t] by {
        assert(s.subrange(i, i + x.len())[t] == x[t]);
    }
    assert(s[i] == x[0]);
    lemma_sp_ws_noop(s, i);
    assert forall|t: int| i <= t < i + 24 implies is_keyword_char(#[trigger] s[t]) by {
        assert(s.subrange(i, i + x.len())[t - i] == x[t - i]);
        assert(s[t] == x[t - i]);
        assert(x[t - i] == kw_person_and_organization()[t - i]);
    }
    assert(s[i + 24] == x[24]);
    assert(x[24] == '(');
    lemma_sp_kw_end_run(s, i, i + 24);
    lemma_subrange_slice(s, i, x, 0, 24);
    assert(x.subrange(0, 24) =~= kw_person_and_organization());
    assert(sp_keyword(s, i) == (kw_person_and_organization(), i + 24));
    lemma_sp_ws_noop(s, i + 24);
    assert(sp_char(s, i + 24, '(') == Some(i + 25));
    let o0 = 25;
    lemma_subrange_slice(s, i, x, o0, o0 + l0);
    assert(x.subrange(o0, o0 + l0) =~= rd_id(v.the_person));
    assert(x[o0 + l0] == ',');
    lemma_id_round_trip(s, i + o0, v.the_person);
    lemma_sp_ws_noop(s, i + o0 + l0);
    assert(sp_char(s, i + o0 + l0, ',') == Some(i + o0 + l0 + 1));
    let o1 = o0 + l0 + 1;
    lemma_subrange_slice(s, i, x, o1, o1 + l1);
    assert(x.subrange(o1, o1 + l1) =~= rd_id(v.the_organization));
    assert(x[o1 + l1] == ',');
    lemma_id_round_trip(s, i + o1, v.the_organization);
    lemma_sp_ws_noop(s, i + o1 + l1);
    assert(sp_char(s, i + o1 + l1, ',') == Some(i + o1 + l1 + 1));
    let o2 = o1 + l1 + 1;
    lemma_subrange_slice(s, i, x, o2, o2 + l2);
    assert(x.subrange(o2, o2 + l2) =~= rd_opt_id_list(v.roles));
    assert(x[o2 + l2] == ')');
    lemma_opt_id_list_round_trip(s, i + o2, v.roles);
    lemma_sp_ws_noop(s, i + o2 + l2);
    assert(sp_char(s, i + o2 + l2, ')') == Some(i + o2 + l2 + 1));
    assert(x[o2 + l2 + 1] == ';');
    lemma_sp_ws_noop(s, i + o2 + l2 + 1);
    assert(sp_char(s, i + o2 + l2 + 1, ';') == Some(i + o2 + l2 + 1 + 1));
}

impl PersonAndOrganization {
    /// Parses one record of this kind starting at `pos`.
    pub fn parse_at(s: &Vec<char>, pos: usize) -> (r: Result<(Self, usize), ParseError>)
        requires
            pos <= s@.len(),
        ensures
            match r {
                Ok((m, j)) => sp_person_and_organization(s@, pos as int) == Some((m@, j as int)) && pos <= j
                    <= s@.len(),
                Err(_) => sp_person_and_organization(s@, pos as int) is None,
            },
    {
        let (kwtok, e) = parse_keyword_at(s, pos);
        if !chars_eq_str(&kwtok, "IFCPERSONANDORGANIZATION") {
            return Err(ParseError { pos: e, kind: ErrorKind::UnknownKeyword });
        }
        Self::parse_body_at(s, e)
    }

    /// Parses the attribute list after the keyword starting at `pos`.
    #[verifier::rlimit(80)]
    pub fn parse_body_at(s: &Vec<char>, pos: usize) -> (r: Result<(Self, usize), ParseError>)
        requires
            pos <= s@.len(),
        ensures
            match r {
                Ok((m, j)) => sp_person_and_organization_body(s@, pos as int) == Some((m@, j as int)) && pos <= j
                    <= s@.len(),
                Err(_) => sp_person_and_organization_body(s@, pos as int) is None,
            },
    {
        let p1 = expect_char(s, pos, '(')?;
        let (a_the_person_raw, p2) = parse_id_at(s, p1)?;
        let a_the_person = Id(a_the_person_raw);
        let p3 = expect_char(s, p2, ',')?;
        let (a_the_organization_raw, p4) = parse_id_at(s, p3)?;
        let a_the_organization = Id(a_the_organization_raw);
        let p5 = expect_char(s, p4, ',')?;
        let (a_roles, p6) = parse_opt_id_list_at(s, p5)?;
        let p7 = expect_char(s, p6, ')')?;
        let p8 = expect_char(s, p7, ';')?;
        Ok((PersonAndOrganization { the_person: a_the_person, the_organization: a_the_organization, roles: a_roles }, p8))
    }

    /// Parses a complete text that holds exactly one record of
    /// this kind.
    pub fn parse(s: &Vec<char>) -> (r: Result<Self, ParseError>)
        ensures
            match r {
                Ok(m) => sp_person_and_organization_full(s@) == Some(m@),
                Err(_) => sp_person_and_organization_full(s@) is None,
            },
    {
        match Self::parse_at(s, 0) {
            Ok((m, j)) => {
                let k = skip_ws(s, j);
                if k == s.len() {
                    Ok(m)
                } else {
                    Err(ParseError { pos: k, kind: ErrorKind::TrailingText })
                }
            },
            Err(e) => Err(e),
        }
    }

    /// Appends the canonical text of this record.
    #[verifier::rlimit(80)]
    pub fn render_into(&self, out: &mut Vec<char>)
        ensures
            final(out)@ == old(out)@ + rd_person_and_organization(self@),
    {
        let ghost o0 = out@;
        out.push('I');
        out.push('F');
        out.push('C');
        out.push('P');
        out.push('E');
        out.push('R');
        out.push('S');
        out.push('O');
        out.push('N');
        out.push('A');
        out.push('N');
        out.push('D');
        out.push('O');
        out.push('R');
        out.push('G');
        out.push('A');
        out.push('N');
        out.push('I');
        out.push('Z');
        out.push('A');
        out.push('T');
        out.push('I');
        out.push('O');
        out.push('N');
        proof {
            reveal_strlit("IFCPERSONANDORGANIZATION");
            assert(out@ =~= o0 + kw_person_and_organization());
        }
        out.push('(');
        render_id(self.the_person.0, out);
        out.push(',');
        render_id(self.the_organization.0, out);
        out.push(',');
        render_opt_id_list(&self.roles, out);
        out.push(')');
        out.push(';');
        proof {
            assert(out@ =~= o0 + rd_person_and_organization(self@));
        }
    }

    /// The canonical text of this record.
    pub fn render(&self) -> (out: Vec<char>)
        ensures
            out@ == rd_person_and_organization(self@),
    {
        let mut out: Vec<char> = Vec::new();
        self.render_into(&mut out);
        proof {
            assert(out@ =~= rd_person_and_organization(self@));
        }
        out
    }
}

/// Whatever this parser accepts is well formed.
#[verifier::rlimit(80)]
pub proof fn lemma_sp_person_and_organization_body_wf(s: Seq<char>, i: int)
    ensures
        sp_person_and_organization_body(s, i) matches Some(r) ==> wf_person_and_organization(r.0),
{
    if let Some(q1) = sp_char(s, i, '(') {
        if let Some((a_the_person, q2)) = sp_id(s, q1) {
            if let Some(q3) = sp_char(s, q2, ',') {
                if let Some((a_the_organization, q4)) = sp_id(s, q3) {
                    if let Some(q5) = sp_char(s, q4, ',') {
                        lemma_sp_opt_id_list_wf(s, q5);
                        if let Some((a_roles, q6)) = sp_opt_id_list(s, q5) {
                        }
                    }
                }
            }
        }
    }
}

/// A software product used to create and modify the data.
#[derive(Clone, PartialEq, Eq, Debug)]
pub struct Application {
    /// Reference to the organization that developed the application.
    pub application_developer: Id,
    /// The version number of the application.
    pub version: Label,
    /// The full name of the application.
    pub application_full_name: Label,
    /// A short identifying name for the application.
    pub application_identifier: Label,
}

/// The mathematical content of a [`Application`].
pub struct ApplicationV {
    pub application_developer: u64,
    pub version: Seq<char>,
    pub application_full_name: Seq<char>,
    pub application_identifier: Seq<char>,
}

impl View for Application {
    type V = ApplicationV;

    open spec fn view(&self) -> ApplicationV {
        ApplicationV {
            application_developer: self.application_developer@,
            version: self.version@,
            application_full_name: self.application_full_name@,
            application_identifier: self.application_identifier@,
        }
    }
}

pub open spec fn kw_application() -> Seq<char> {
    "IFCAPPLICATION"@
}

/// Validity of the references and literals a record holds.
pub open spec fn wf_application(v: ApplicationV) -> bool {
    wf_id(v.application_developer)
}

/// The canonical text of this record.
pub open spec fn rd_application(v: ApplicationV) -> Seq<char> {
    kw_application() + seq!['('] + rd_id(v.application_developer) + seq![','] + rd_label(v.version) + seq![','] + rd_label(v.application_full_name) + seq![','] + rd_label(v.application_identifier) + seq![')', ';']
}

/// The attribute list after the keyword.
pub open spec fn sp_application_body(s: Seq<char>, i: int) -> Option<(ApplicationV, int)> {
    match sp_char(s, i, '(') {
        None => None,
        Some(p1) => {
            match sp_id(s, p1) {
                None => None,
                Some((a_application_developer, p2)) => {
                    match sp_char(s, p2, ',') {
                        None => None,
                        Some(p3) => {
                            match sp_quoted(s, p3) {
                                None => None,
                                Some((a_version, p4)) => {
                                    match sp_char(s, p4, ',') {
                                        None => None,
                                        Some(p5) => {
                                            match sp_quoted(s, p5) {
                                                None => None,
                                                Some((a_application_full_name, p6)) => {
                                                    match sp_char(s, p6, ',') {
                                                        None => None,
                                                        Some(p7) => {
                                                            match sp_quoted(s, p7) {
                                                                None => None,
                                                                Some((a_application_identifier, p8)) => {
                                                                    match sp_char(s, p8, ')') {
                                                                        None => None,
                                                                        Some(p9) => {
                                                                            match sp_char(s, p9, ';') {
                                                                                None => None,
                                                                                Some(p10) => {
                                                                                    Some((ApplicationV { application_developer: a_application_developer, version: a_version, application_full_name: a_application_full_name, application_identifier: a_application_identifier }, p10))
                                        },
                                    }
                                },
                            }
                        },
                    }
                },
            }
        },
    }
},
}
},
}
},
}
},
}
},
}
}

/// A whole record: the keyword, then the attributes.
pub open spec fn sp_application(s: Seq<char>, i: int) -> Option<(ApplicationV, int)> {
    let (kwtok, e) = sp_keyword(s, i);
    if kwtok == kw_application() {
        sp_application_body(s, e)
    } else {
        None
    }
}

/// A complete text holding exactly one record of this kind,
/// with nothing but whitespace after it.
pub open spec fn sp_application_full(s: Seq<char>) -> Option<ApplicationV> {
    match sp_application(s, 0) {
        Some((v, e)) => if sp_ws(s, e) == s.len() {
            Some(v)
        } else {
            None
        },
        None => None,
    }
}

/// Parsing the canonical text of this record yields it back and
/// consumes exactly its text.
#[verifier::rlimit(80)]
pub proof fn lemma_application_round_trip(s: Seq<char>, i: int, v: ApplicationV)
    requires
        0 <= i,
        i + rd_application(v).len() <= s.len(),
        s.subrange(i, i + rd_application(v).len()) == rd_application(v),
        wf_application(v),
    ensures
        sp_application(s, i) == Some((v, i + rd_application(v).len())),
{
    reveal_strlit("IFCAPPLICATION");
    let x = rd_application(v);
    let l0 = rd_id(v.application_developer).len() as int;
    let l1 = rd_label(v.version).len() as int;
    let l2 = rd_label(v.application_full_name).len() as int;
    let l3 = rd_label(v.application_identifier).len() as int;
    assert forall|t: int| 0 <= t < x.len() implies s[i + t] == x[t] by {
        assert(s.subrange(i, i + x.len())[t] == x[t]);
    }
    assert(s[i] == x[0]);
    lemma_sp_ws_noop(s, i);
    assert forall|t: int| i <= t < i + 14 implies is_keyword_char(#[trigger] s[t]) by {
        assert(s.subrange(i, i + x.len())[t - i] == x[t - i]);
        assert(s[t] == x[t - i]);
        assert(x[t - i] == kw_application()[t - i]);
    }
    assert(s[i + 14] == x[14]);
    assert(x[14] == '(');
    lemma_sp_kw_end_run(s, i, i + 14);
    lemma_subrange_slice(s, i, x, 0, 14);
    assert(x.subrange(0, 14) =~= kw_application());
    assert(sp_keyword(s, i) == (kw_application(), i + 14));
    lemma_sp_ws_noop(s, i + 14);
    assert(sp_char(s, i + 14, '(') == Some(i + 15));
    let o0 = 15;
    lemma_subrange_slice(s, i, x, o0, o0 + l0);
    assert(x.subrange(o0, o0 + l0) =~= rd_id(v.application_developer));
    assert(x[o0 + l0] == ',');
    lemma_id_round_trip(s, i + o0, v.application_developer);
    lemma_sp_ws_noop(s, i + o0 + l0);
    assert(sp_char(s, i + o0 + l0, ',') == Some(i + o0 + l0 + 1));
    let o1 = o0 + l0 + 1;
    lemma_subrange_slice(s, i, x, o1, o1 + l1);
    assert(x.subrange(o1, o1 + l1) =~= rd_label(v.version));
    assert(x[o1 + l1] == ',');
    lemma_label_round_trip(s, i + o1, v.version);
    lemma_sp_ws_noop(s, i + o1 + l1);
    assert(sp_char(s, i + o1 + l1, ',') == Some(i + o1 + l1 + 1));
    let o2 = o1 + l1 + 1;
    lemma_subrange_slice(s, i, x, o2, o2 + l2);
    assert(x.subrange(o2, o2 + l2) =~= rd_label(v.application_full_name));
    assert(x[o2 + l2] == ',');
    lemma_label_round_trip(s, i + o2, v.application_full_name);
    lemma_sp_ws_noop(s, i + o2 + l2);
    assert(sp_char(s, i + o2 + l2, ',') == Some(i + o2 + l2 + 1));
    let o3 = o2 + l2 + 1;
    lemma_subrange_slice(s, i, x, o3, o3 + l3);
    assert(x.subrange(o3, o3 + l3) =~= rd_label(v.application_identifier));
    assert(x[o3 + l3] == ')');
    lemma_label_round_trip(s, i + o3, v.application_identifier);
    lemma_sp_ws_noop(s, i + o3 + l3);
    assert(sp_char(s, i + o3 + l3, ')') == Some(i + o3 + l3 + 1));
    assert(x[o3 + l3 + 1] == ';');
    lemma_sp_ws_noop(s, i + o3 + l3 + 1);
    assert(sp_char(s, i + o3 + l3 + 1, ';') == Some(i + o3 + l3 + 1 + 1));
}

impl Application {
    /// Parses one record of this kind starting at `pos`.
    pub fn parse_at(s: &Vec<char>, pos: usize) -> (r: Result<(Self, usize), ParseError>)
        requires
            pos <= s@.len(),
        ensures
            match r {
                Ok((m, j)) => sp_application(s@, pos as int) == Some((m@, j as int)) && pos <= j
                    <= s@.len(),
                Err(_) => sp_application(s@, pos as int) is None,
            },
    {
        let (kwtok, e) = parse_keyword_at(s, pos);
        if !chars_eq_str(&kwtok, "IFCAPPLICATION") {
            return Err(ParseError { pos: e, kind: ErrorKind::UnknownKeyword });
        }
        Self::parse_body_at(s, e)
    }

    /// Parses the attribute list after the keyword starting at `pos`.
    #[verifier::rlimit(80)]
    pub fn parse_body_at(s: &Vec<char>, pos: usize) -> (r: Result<(Self, usize), ParseError>)
        requires
            pos <= s@.len(),
        ensures
            match r {
                Ok((m, j)) => sp_application_body(s@, pos as int) == Some((m@, j as int)) && pos <= j
                    <= s@.len(),
                Err(_) => sp_application_body(s@, pos as int) is None,
            },
    {
        let p1 = expect_char(s, pos, '(')?;
        let (a_application_developer_raw, p2) = parse_id_at(s, p1)?;
        let a_application_developer = Id(a_application_developer_raw);
        let p3 = expect_char(s, p2, ',')?;
        let (a_version, p4) = parse_label_at(s, p3)?;
        let p5 = expect_char(s, p4, ',')?;
        let (a_application_full_name, p6) = parse_label_at(s, p5)?;
        let p7 = expect_char(s, p6, ',')?;
        let (a_application_identifier, p8) = parse_label_at(s, p7)?;
        let p9 = expect_char(s, p8, ')')?;
        let p10 = expect_char(s, p9, ';')?;
        Ok((Application { application_developer: a_application_developer, version: a_version, application_full_name: a_application_full_name, application_identifier: a_application_identifier }, p10))
    }

    /// Parses a complete text that holds exactly one record of
    /// this kind.
    pub fn parse(s: &Vec<char>) -> (r: Result<Self, ParseError>)
        ensures
            match r {
                Ok(m) => sp_application_full(s@) == Some(m@),
                Err(_) => sp_application_full(s@) is None,
            },
    {
        match Self::parse_at(s, 0) {
            Ok((m, j)) => {
                let k = skip_ws(s, j);
                if k == s.len() {
                    Ok(m)
                } else {
                    Err(ParseError { pos: k, kind: ErrorKind::TrailingText })
                }
            },
            Err(e) => Err(e),
        }
    }

    /// Appends the canonical text of this record.
    #[verifier::rlimit(80)]
    pub fn render_into(&self, out: &mut Vec<char>)
        ensures
            final(out)@ == old(out)@ + rd_application(self@),
    {
        let ghost o0 = out@;
        out.push('I');
        out.push('F');
        out.push('C');
        out.push('A');
        out.push('P');
        out.push('P');
        out.push('L');
        out.push('I');
        out.push('C');
        out.push('A');
        out.push('T');
        out.push('I');
        out.push('O');
        out.push('N');
        proof {
            reveal_strlit("IFCAPPLICATION");
            assert(out@ =~= o0 + kw_application());
        }
        out.push('(');
        render_id(self.application_developer.0, out);
        out.push(',');
        render_label(&self.version, out);
        out.push(',');
        render_label(&self.application_full_name, out);
        out.push(',');
        render_label(&self.application_identifier, out);
        out.push(')');
        out.push(';');
        proof {
            assert(out@ =~= o0 + rd_application(self@));
        }
    }

    /// The canonical text of this record.
    pub fn render(&self) -> (out: Vec<char>)
        ensures
            out@ == rd_application(self@),
    {
        let mut out: Vec<char> = Vec::new();
        self.render_into(&mut out);
        proof {
            assert(out@ =~= rd_application(self@));
        }
        out
    }
}

/// Whatever this parser accepts is well formed.
#[verifier::rlimit(80)]
pub proof fn lemma_sp_application_body_wf(s: Seq<char>, i: int)
    ensures
        sp_application_body(s, i) matches Some(r) ==> wf_application(r.0),
{
    if let Some(q1) = sp_char(s, i, '(') {
        if let Some((a_application_developer, q2)) = sp_id(s, q1) {
            if let Some(q3) = sp_char(s, q2, ',') {
                if let Some((a_version, q4)) = sp_quoted(s, q3) {
                    if let Some(q5) = sp_char(s, q4, ',') {
                        if let Some((a_application_full_name, q6)) = sp_quoted(s, q5) {
                            if let Some(q7) = sp_char(s, q6, ',') {
                                if let Some((a_application_identifier, q8)) = sp_quoted(s, q7) {
                                }
                            }
                        }
                    }
                }
            }
        }
    }
}

impl OwnerHistory {
    /// Builds an owner history, materializing the owning user and
    /// application (and, where present, the last-modifying ones) into
    /// the document first, in that order. Each reference argument is
    /// used as it is; each owned value is inserted once, under the
    /// identifier the allocator stood at when its turn came. When every
    /// argument is already a reference, the document is untouched.
    pub fn new(
        owning_user: crate::id::IdOr<PersonAndOrganization>,
        owning_application: crate::id::IdOr<Application>,
        state: Option<AccessState>,
        change_action: ChangeAction,
        last_modified_date: Option<u64>,
        last_modifying_user: Option<crate::id::IdOr<PersonAndOrganization>>,
        last_modifying_application: Option<crate::id::IdOr<Application>>,
        creation_date: u64,
        ifc: &mut crate::ifc::IFC,
    ) -> (r: Self)
        requires
            old(ifc).wf(),
            old(ifc).next_id < u64::MAX - 4,
            owning_user matches crate::id::IdOr::Id(t) ==> t@ >= 1,
            owning_application matches crate::id::IdOr::Id(t) ==> t@ >= 1,
            last_modifying_user matches Some(u) ==> (u matches crate::id::IdOr::Id(t) ==> t@
                >= 1),
            last_modifying_application matches Some(a) ==> (a matches crate::id::IdOr::Id(t)
                ==> t@ >= 1),
        ensures
            final(ifc).wf(),
            r@.state == state,
            r@.change_action == change_action,
            r@.last_modified_date == last_modified_date,
            r@.creation_date == creation_date,
            wf_owner_history(r@),
            ({
                let n0 = old(ifc).next_id as int;
                let n1 = crate::id::next_after(owning_user, n0);
                let n2 = crate::id::next_after(owning_application, n1);
                let n3 = crate::id::opt_next_after(last_modifying_user, n2);
                let n4 = crate::id::opt_next_after(last_modifying_application, n3);
                &&& r@.owning_user == crate::id::materialized_id(owning_user, n0)
                &&& r@.owning_application == crate::id::materialized_id(owning_application, n1)
                &&& r@.last_modifying_user == (match last_modifying_user {
                    None => None::<u64>,
                    Some(u) => Some(crate::id::materialized_id(u, n2) as u64),
                })
                &&& r@.last_modifying_application == (match last_modifying_application {
                    None => None::<u64>,
                    Some(a) => Some(crate::id::materialized_id(a, n3) as u64),
                })
                &&& final(ifc).next_id == n4
            }),
            owning_user matches crate::id::IdOr::Custom(v) ==> final(ifc).data.spec_get(
                r@.owning_user,
            ) == Some(<PersonAndOrganization as ParsedIfcType>::wrap_spec(v)),
            owning_application matches crate::id::IdOr::Custom(v) ==> final(ifc).data.spec_get(
                r@.owning_application,
            ) == Some(<Application as ParsedIfcType>::wrap_spec(v)),
            (match last_modifying_user {
                Some(crate::id::IdOr::Custom(v)) => final(ifc).data.spec_get(
                    r@.last_modifying_user->Some_0,
                ) == Some(<PersonAndOrganization as ParsedIfcType>::wrap_spec(v)),
                _ => true,
            }),
            (match last_modifying_application {
                Some(crate::id::IdOr::Custom(v)) => final(ifc).data.spec_get(
                    r@.last_modifying_application->Some_0,
                ) == Some(<Application as ParsedIfcType>::wrap_spec(v)),
                _ => true,
            }),
            crate::id::is_ref(owning_user) && crate::id::is_ref(owning_application)
                && crate::id::opt_is_ref(last_modifying_user) && crate::id::opt_is_ref(
                last_modifying_application,
            ) ==> *final(ifc) == *old(ifc),
            final(ifc).header == old(ifc).header,
            final(ifc).footer == old(ifc).footer,
    {
        let ghost ou = owning_user;
        let ghost oa = owning_application;
        let ghost lmu = last_modifying_user;
        let ghost lma = last_modifying_application;
        let ghost g0 = *ifc;
        let owning_user_id = owning_user.into_id(ifc);
        let ghost g1 = *ifc;
        let owning_application_id = owning_application.into_id(ifc);
        let ghost g2 = *ifc;
        let last_modifying_user_id = match last_modifying_user {
            Some(u) => OptionalParameter::Custom(u.into_id(ifc).id()),
            None => OptionalParameter::Omitted,
        };
        let ghost g3 = *ifc;
        let last_modifying_application_id = match last_modifying_application {
            Some(a) => OptionalParameter::Custom(a.into_id(ifc).id()),
            None => OptionalParameter::Omitted,
        };
        let ghost g4 = *ifc;
        proof {
            lemma_materialization_steps(ou, oa, lmu, lma, g0, g1, g2, g3, g4);
        }
        let state_param = match state {
            Some(st) => OptionalParameter::Custom(st),
            None => OptionalParameter::Omitted,
        };
        let date_param = match last_modified_date {
            Some(d) => OptionalParameter::Custom(d),
            None => OptionalParameter::Omitted,
        };
        OwnerHistory {
            owning_user: owning_user_id.id(),
            owning_application: owning_application_id.id(),
            state: state_param,
            change_action,
            last_modified_date: date_param,
            last_modifying_user: last_modifying_user_id,
            last_modifying_application: last_modifying_application_id,
            creation_date,
        }
    }
}

/// Each materialization step touches only its own fresh identifier, so
/// the entries the earlier steps inserted survive the later ones.
proof fn lemma_materialization_steps(
    ou: crate::id::IdOr<PersonAndOrganization>,
    oa: crate::id::IdOr<Application>,
    lmu: Option<crate::id::IdOr<PersonAndOrganization>>,
    lma: Option<crate::id::IdOr<Application>>,
    g0: crate::ifc::IFC,
    g1: crate::ifc::IFC,
    g2: crate::ifc::IFC,
    g3: crate::ifc::IFC,
    g4: crate::ifc::IFC,
)
    requires
        g0.wf(),
        g0.next_id < u64::MAX - 4,
        step_holds_pao(ou, g0, g1),
        step_holds_app(oa, g1, g2),
        opt_step_holds_pao(lmu, g2, g3),
        opt_step_holds_app(lma, g3, g4),
    ensures
        g1.next_id == crate::id::next_after(ou, g0.next_id as int),
        g2.next_id == crate::id::next_after(oa, g1.next_id as int),
        g3.next_id == crate::id::opt_next_after(lmu, g2.next_id as int),
        g4.next_id == crate::id::opt_next_after(lma, g3.next_id as int),
        ou matches crate::id::IdOr::Custom(v) ==> g4.data.spec_get(g0.next_id) == Some(
            v.wrap_spec(),
        ),
        oa matches crate::id::IdOr::Custom(v) ==> g4.data.spec_get(g1.next_id) == Some(
            v.wrap_spec(),
        ),
        (match lmu {
            Some(crate::id::IdOr::Custom(v)) => g4.data.spec_get(g2.next_id) == Some(
                v.wrap_spec(),
            ),
            _ => true,
        }),
        crate::id::is_ref(ou) && crate::id::is_ref(oa) && crate::id::opt_is_ref(lmu)
            && crate::id::opt_is_ref(lma) ==> g4 == g0,
{
}

/// What one materialization call promises, restated over snapshots.
spec fn step_holds_pao(
    a: crate::id::IdOr<PersonAndOrganization>,
    pre: crate::ifc::IFC,
    post: crate::ifc::IFC,
) -> bool {
    &&& post.wf()
    &&& post.header == pre.header
    &&& post.footer == pre.footer
    &&& match a {
        crate::id::IdOr::Id(_) => post == pre,
        crate::id::IdOr::Custom(v) => {
            &&& !pre.data.spec_contains(pre.next_id)
            &&& post.data.spec_get(pre.next_id) == Some(
                <PersonAndOrganization as crate::datamap::ParsedIfcType>::wrap_spec(v),
            )
            &&& forall|q: u64|
                q != pre.next_id ==> post.data.spec_get(q) == pre.data.spec_get(q)
            &&& post.next_id == pre.next_id + 1
        },
    }
}

/// What one materialization call promises, restated over snapshots.
spec fn step_holds_app(
    a: crate::id::IdOr<Application>,
    pre: crate::ifc::IFC,
    post: crate::ifc::IFC,
) -> bool {
    &&& post.wf()
    &&& post.header == pre.header
    &&& post.footer == pre.footer
    &&& match a {
        crate::id::IdOr::Id(_) => post == pre,
        crate::id::IdOr::Custom(v) => {
            &&& !pre.data.spec_contains(pre.next_id)
            &&& post.data.spec_get(pre.next_id) == Some(
                <Application as crate::datamap::ParsedIfcType>::wrap_spec(v),
            )
            &&& forall|q: u64|
                q != pre.next_id ==> post.data.spec_get(q) == pre.data.spec_get(q)
            &&& post.next_id == pre.next_id + 1
        },
    }
}

spec fn opt_step_holds_pao(
    a: Option<crate::id::IdOr<PersonAndOrganization>>,
    pre: crate::ifc::IFC,
    post: crate::ifc::IFC,
) -> bool {
    match a {
        None => post == pre,
        Some(x) => step_holds_pao(x, pre, post),
    }
}

spec fn opt_step_holds_app(
    a: Option<crate::id::IdOr<Application>>,
    pre: crate::ifc::IFC,
    post: crate::ifc::IFC,
) -> bool {
    match a {
        None => post == pre,
        Some(x) => step_holds_app(x, pre, post),
    }
}

} // verus!
