//! Gathering the parameters of a calculation: what is given is taken, what
//! is missing is asked for, one question at a time and in a fixed order.
//! Asking itself is left to the caller, who hands the answer back.

use crate::calc_param::{CalcParam, Query, NO_FDA_ID};
use crate::correction_data::{calibrations, Calibration, CorrectionData};
use crate::correction_data_set::{
    applicators_on, list_applicators, list_machines, machines_of, resolve, resolved,
};
use crate::decimal::Decimal;
use crate::errors::{EmuError, Failure};
use crate::fda_table::Apertures;
use crate::loader::{is_load_failure, load_data, load_model, DataFile};
use crate::mu::{calculate_mu, monitor_units};
use crate::search::{
    distinct, find_decimal, lemma_distinct_append, lemma_first_at, push_new_decimals,
};
use crate::text::{digits_text, push_number, texts};
use vstd::prelude::*;
use vstd::string::StringExecFns;

verus! {

/// What is being settled, in the order in which it is settled.
#[derive(Clone, Copy, Debug, PartialEq, Eq, Structural)]
pub enum Stage {
    Machine,
    Applicator,
    Energy,
    Fda,
    Ssd,
    DoseZref,
    PlannedBeamMu,
    Done,
}

/// What a question asks for, with the choices it offers.
pub enum Prompt {
    Machine(Seq<Seq<char>>),
    Applicator(Seq<Seq<char>>),
    Energy(Seq<Decimal>),
    Fda(Seq<Seq<char>>),
    Ssd,
    DoseZref(Decimal),
    PlannedBeamMu,
}

/// A question to put to the user.
#[derive(Debug)]
pub enum Question {
    /// Which machine, of these.
    Machine(Vec<String>),
    /// Which applicator, of these.
    Applicator(Vec<String>),
    /// Which energy, of these.
    Energy(Vec<Decimal>),
    /// Which aperture, of these labels.
    Fda(Vec<String>),
    /// The source-to-skin distance.
    Ssd,
    /// The dose at this reference depth.
    DoseZref(Decimal),
    /// The monitor units of the plan.
    PlannedBeamMu,
}

impl View for Question {
    type V = Prompt;

    open spec fn view(&self) -> Prompt {
        match *self {
            Question::Machine(v) => Prompt::Machine(texts(v@)),
            Question::Applicator(v) => Prompt::Applicator(texts(v@)),
            Question::Energy(v) => Prompt::Energy(v@),
            Question::Fda(v) => Prompt::Fda(texts(v@)),
            Question::Ssd => Prompt::Ssd,
            Question::DoseZref(d) => Prompt::DoseZref(d),
            Question::PlannedBeamMu => Prompt::PlannedBeamMu,
        }
    }
}

/// The answer to a question: the position of a choice, or a number.
#[derive(Clone, Copy, Debug, PartialEq, Eq, Structural)]
pub enum Answer {
    Choice(usize),
    Value(Decimal),
}

/// How far the parameters have been settled.
pub struct Progress {
    pub stage: Stage,
    pub param: Query,
    pub selected: usize,
}

/// The state of gathering the parameters: what is being settled, the
/// parameters so far, and, once machine and applicator are settled, the
/// position of their calibration data.
#[derive(Debug)]
pub struct Dialogue {
    pub stage: Stage,
    pub param: CalcParam,
    pub selected: usize,
}

impl View for Dialogue {
    type V = Progress;

    open spec fn view(&self) -> Progress {
        Progress { stage: self.stage, param: self.param@, selected: self.selected }
    }
}

/// What comes of a step: a question, or the end.
pub enum Turn {
    Ask(Prompt),
    Done,
}

/// What the caller has to do next.
#[derive(Debug)]
pub enum Step {
    /// Put this question and hand the answer back.
    Ask(Question),
    /// Nothing: the parameters are complete.
    Done,
}

impl View for Step {
    type V = Turn;

    open spec fn view(&self) -> Turn {
        match *self {
            Step::Ask(q) => Turn::Ask(q@),
            Step::Done => Turn::Done,
        }
    }
}

/// What a stage does where it does not fail: it asks, or it settles its
/// parameter and makes way for the next stage.
pub enum Move {
    Ask(Prompt),
    Next(Query, usize),
}

pub open spec fn next_stage(stage: Stage) -> Stage {
    match stage {
        Stage::Machine => Stage::Applicator,
        Stage::Applicator => Stage::Energy,
        Stage::Energy => Stage::Fda,
        Stage::Fda => Stage::Ssd,
        Stage::Ssd => Stage::DoseZref,
        Stage::DoseZref => Stage::PlannedBeamMu,
        Stage::PlannedBeamMu => Stage::Done,
        Stage::Done => Stage::Done,
    }
}

/// How many stages are still to come.
pub open spec fn stages_left(stage: Stage) -> nat {
    match stage {
        Stage::Machine => 7,
        Stage::Applicator => 6,
        Stage::Energy => 5,
        Stage::Fda => 4,
        Stage::Ssd => 3,
        Stage::DoseZref => 2,
        Stage::PlannedBeamMu => 1,
        Stage::Done => 0,
    }
}

/// What was given beforehand; nothing, where there are no parameters.
pub open spec fn given_of(input: Option<&CalcParam>) -> Query {
    match input {
        Some(c) => c@,
        None => Query::unset(),
    }
}

/// The label under which an aperture is offered.
pub open spec fn fda_label(name: Seq<char>, id: usize) -> Seq<char> {
    name + " [id="@ + digits_text(id as nat) + "]"@
}

/// The labels of the apertures of a table, in the order of its rows.
pub open spec fn fda_labels(t: Apertures) -> Seq<Seq<char>> {
    Seq::new(t.ids.len(), |i: int| fda_label(t.names[i], t.ids[i]))
}

/// Settling the applicator settles the calibration data: the only entry
/// for machine and applicator.
pub open spec fn applicator_move(data: Seq<Calibration>, p: Progress, applicator: Seq<char>) -> Result<
    Move,
    Failure,
> {
    match resolved(data, p.param.machine, applicator) {
        Ok(i) => Ok(Move::Next(Query { applicator, ..p.param }, i as usize)),
        Err(f) => Err(f),
    }
}

/// What a stage does.  It fails where the data offer nothing to choose
/// from; it settles its parameter where that was given beforehand; else
/// it asks.  An energy that was given has to be one of the data.
pub open spec fn stage_move(data: Seq<Calibration>, given: Query, p: Progress) -> Result<
    Move,
    Failure,
> {
    match p.stage {
        Stage::Machine => if machines_of(data).len() == 0 {
            Err(Failure::Str("No machines found in the correction data."@))
        } else if given.machine.len() > 0 {
            Ok(Move::Next(Query { machine: given.machine, ..p.param }, p.selected))
        } else {
            Ok(Move::Ask(Prompt::Machine(machines_of(data))))
        },
        Stage::Applicator => if applicators_on(data, p.param.machine).len() == 0 {
            Err(Failure::Str("No applicators found in the correction data."@))
        } else if given.applicator.len() > 0 {
            applicator_move(data, p, given.applicator)
        } else {
            Ok(Move::Ask(Prompt::Applicator(applicators_on(data, p.param.machine))))
        },
        Stage::Energy => if p.selected >= data.len() {
            Err(Failure::CorrectionDataNotFound(p.param.machine, p.param.applicator))
        } else if data[p.selected as int].output_factors.energies.len() == 0 {
            Err(Failure::Str("No energy found in the filtered correction data"@))
        } else if given.energy.units != 0 && given.depth_zref.units != 0 {
            if data[p.selected as int].output_factors.energies.contains(given.energy) {
                Ok(
                    Move::Next(
                        Query {
                            energy: given.energy,
                            depth_zref: given.depth_zref,
                            ..p.param
                        },
                        p.selected,
                    ),
                )
            } else {
                Err(Failure::Str("No valid energy was selected"@))
            }
        } else {
            Ok(Move::Ask(Prompt::Energy(distinct(data[p.selected as int].output_factors.energies))))
        },
        Stage::Fda => if p.selected >= data.len() {
            Err(Failure::CorrectionDataNotFound(p.param.machine, p.param.applicator))
        } else if data[p.selected as int].fda.ids.len() == 0 {
            Err(Failure::Str("No FDA IDs found in filtered correction data"@))
        } else if given.fda_id != NO_FDA_ID {
            Ok(Move::Next(Query { fda_id: given.fda_id, ..p.param }, p.selected))
        } else {
            Ok(Move::Ask(Prompt::Fda(fda_labels(data[p.selected as int].fda))))
        },
        Stage::Ssd => if given.ssd.units != 0 {
            Ok(Move::Next(Query { ssd: given.ssd, ..p.param }, p.selected))
        } else {
            Ok(Move::Ask(Prompt::Ssd))
        },
        Stage::DoseZref => if given.dose_zref.units != 0 {
            Ok(Move::Next(Query { dose_zref: given.dose_zref, ..p.param }, p.selected))
        } else {
            Ok(Move::Ask(Prompt::DoseZref(p.param.depth_zref)))
        },
        Stage::PlannedBeamMu => if given.planned_beam_mu.units != 0 {
            Ok(Move::Next(Query { planned_beam_mu: given.planned_beam_mu, ..p.param }, p.selected))
        } else {
            Ok(Move::Ask(Prompt::PlannedBeamMu))
        },
        Stage::Done => Ok(Move::Next(p.param, p.selected)),
    }
}

/// Where gathering gets to from a state: through the stages whose
/// parameter was given, up to the first question, the first failure or the
/// end.  A failure comes with the state in which it occurred.
pub open spec fn run(data: Seq<Calibration>, given: Query, p: Progress) -> Result<
    (Progress, Turn),
    (Progress, Failure),
>
    decreases stages_left(p.stage),
{
    if p.stage == Stage::Done {
        Ok((p, Turn::Done))
    } else {
        match stage_move(data, given, p) {
            Err(f) => Err((p, f)),
            Ok(Move::Ask(q)) => Ok((p, Turn::Ask(q))),
            Ok(Move::Next(param, selected)) => run(
                data,
                given,
                Progress { stage: next_stage(p.stage), param, selected },
            ),
        }
    }
}

/// The choice at `i` of the choices offered, where there is one.
pub open spec fn chosen<T>(a: Answer, options: Seq<T>) -> Option<T> {
    match a {
        Answer::Choice(i) => if i < options.len() {
            Some(options[i as int])
        } else {
            None
        },
        Answer::Value(_) => None,
    }
}

/// The state after an answer to the question of the current stage.  An
/// answer that is no choice among those offered, or no number where one
/// was asked for, settles nothing.  With a chosen energy goes its reference
/// depth, or zero where the data hold none for it, as is the case for data
/// that were read from files.
pub open spec fn answered(data: Seq<Calibration>, p: Progress, a: Answer) -> Result<
    Progress,
    Failure,
> {
    let invalid = Err::<Progress, Failure>(Failure::Terminal("No valid answer was given"@));
    let next = next_stage(p.stage);
    match p.stage {
        Stage::Machine => match chosen(a, machines_of(data)) {
            Some(machine) => Ok(
                Progress { stage: next, param: Query { machine, ..p.param }, selected: p.selected },
            ),
            None => invalid,
        },
        Stage::Applicator => match chosen(a, applicators_on(data, p.param.machine)) {
            Some(applicator) => match applicator_move(data, p, applicator) {
                Ok(Move::Next(param, selected)) => Ok(Progress { stage: next, param, selected }),
                Ok(Move::Ask(_)) => invalid,
                Err(f) => Err(f),
            },
            None => invalid,
        },
        Stage::Energy => if p.selected >= data.len() {
            Err(Failure::CorrectionDataNotFound(p.param.machine, p.param.applicator))
        } else {
            match chosen(a, distinct(data[p.selected as int].output_factors.energies)) {
                Some(energy) => Ok(
                    Progress {
                        stage: next,
                        param: Query {
                            energy,
                            depth_zref: match data[p.selected as int].output_factors.zref(energy) {
                                Some(z) => z,
                                None => Decimal { units: 0 },
                            },
                            ..p.param
                        },
                        selected: p.selected,
                    },
                ),
                None => invalid,
            }
        },
        Stage::Fda => if p.selected >= data.len() {
            Err(Failure::CorrectionDataNotFound(p.param.machine, p.param.applicator))
        } else {
            match chosen(a, data[p.selected as int].fda.ids) {
                Some(fda_id) => Ok(
                    Progress {
                        stage: next,
                        param: Query { fda_id, ..p.param },
                        selected: p.selected,
                    },
                ),
                None => invalid,
            }
        },
        Stage::Ssd => match a {
            Answer::Value(ssd) => Ok(
                Progress { stage: next, param: Query { ssd, ..p.param }, selected: p.selected },
            ),
            Answer::Choice(_) => invalid,
        },
        Stage::DoseZref => match a {
            Answer::Value(dose_zref) => Ok(
                Progress {
                    stage: next,
                    param: Query { dose_zref, ..p.param },
                    selected: p.selected,
                },
            ),
            Answer::Choice(_) => invalid,
        },
        Stage::PlannedBeamMu => match a {
            Answer::Value(planned_beam_mu) => Ok(
                Progress {
                    stage: next,
                    param: Query { planned_beam_mu, ..p.param },
                    selected: p.selected,
                },
            ),
            Answer::Choice(_) => invalid,
        },
        Stage::Done => invalid,
    }
}

/// A failure in words.
fn words(s: &str) -> (e: EmuError)
    ensures
        e@ == Failure::Str(s@),
{
    EmuError::Str(s.to_owned())
}

/// The failure of an answer that settles nothing.
fn invalid_answer() -> (e: EmuError)
    ensures
        e@ == Failure::Terminal("No valid answer was given"@),
{
    EmuError::Terminal("No valid answer was given".to_owned())
}

/// The failure of a state that points at no calibration data.
fn lost_selection(param: &CalcParam) -> (e: EmuError)
    ensures
        e@ == Failure::CorrectionDataNotFound(param@.machine, param@.applicator),
{
    EmuError::CorrectionDataNotFound(param.machine.clone(), param.applicator.clone())
}

/// The labels of the apertures of the data, in the order of their rows.
pub fn list_fda_labels(cd: &CorrectionData) -> (r: Vec<String>)
    ensures
        texts(r@) == fda_labels(cd@.fda),
{
    let names = cd.fda.get_names();
    let ids = cd.fda.get_ids();
    let mut v: Vec<String> = Vec::new();
    let mut i: usize = 0;
    while i < ids.len()
        invariant
            i <= ids@.len(),
            ids@ == cd@.fda.ids,
            names@.len() == ids@.len(),
            names@.len() == cd@.fda.names.len(),
            forall|k: int| 0 <= k < names@.len() ==> (#[trigger] names@[k])@ == cd@.fda.names[k],
            v@.len() == i,
            forall|k: int| 0 <= k < i ==> (#[trigger] v@[k])@ == fda_labels(cd@.fda)[k],
        decreases ids@.len() - i,
    {
        let mut label = names[i].clone();
        label.append(" [id=");
        push_number(&mut label, ids[i] as u64);
        label.append("]");
        v.push(label);
        i += 1;
    }
    assert(texts(v@) =~= fda_labels(cd@.fda));
    v
}

/// The energies of the data, each once and where it was first seen.
pub fn list_energies(cd: &CorrectionData) -> (r: Vec<Decimal>)
    ensures
        r@ == distinct(cd@.output_factors.energies),
{
    let mut v: Vec<Decimal> = Vec::new();
    proof {
        lemma_distinct_append(Seq::<Decimal>::empty(), cd@.output_factors.energies);
        assert(Seq::<Decimal>::empty() + cd@.output_factors.energies
            =~= cd@.output_factors.energies);
    }
    push_new_decimals(&mut v, cd.get_energies_as_ref());
    v
}

impl Dialogue {
    /// The state in which nothing is settled.
    pub fn new() -> (d: Dialogue)
        ensures
            d@ == (Progress { stage: Stage::Machine, param: Query::unset(), selected: 0 }),
    {
        Dialogue { stage: Stage::Machine, param: CalcParam::new(), selected: 0 }
    }
}

/// Settles the applicator and, with it, the calibration data.
fn settle_applicator(vcd: &Vec<CorrectionData>, dialogue: &mut Dialogue, applicator: &str) -> (r:
    Result<(), EmuError>)
    requires
        old(dialogue).stage == Stage::Applicator,
    ensures
        match r {
            Ok(()) => applicator_move(calibrations(vcd@), old(dialogue)@, applicator@) == Ok::<
                Move,
                Failure,
            >(Move::Next(final(dialogue)@.param, final(dialogue)@.selected))
                && final(dialogue)@.stage == Stage::Energy,
            Err(e) => applicator_move(calibrations(vcd@), old(dialogue)@, applicator@) == Err::<
                Move,
                Failure,
            >(e@) && final(dialogue)@ == old(dialogue)@,
        },
{
    match resolve(vcd, dialogue.param.machine.as_str(), applicator) {
        Ok(i) => {
            dialogue.param.applicator = applicator.to_owned();
            dialogue.selected = i;
            dialogue.stage = Stage::Energy;
            Ok(())
        },
        Err(e) => Err(e),
    }
}

/// Takes the current stage as far as it goes without an answer.
fn take_stage(vcd: &Vec<CorrectionData>, given: &CalcParam, dialogue: &mut Dialogue) -> (r: Result<
    Option<Question>,
    EmuError,
>)
    requires
        old(dialogue).stage != Stage::Done,
    ensures
        match r {
            Ok(Some(q)) => stage_move(calibrations(vcd@), given@, old(dialogue)@) == Ok::<
                Move,
                Failure,
            >(Move::Ask(q@)) && final(dialogue)@ == old(dialogue)@,
            Ok(None) => stage_move(calibrations(vcd@), given@, old(dialogue)@) == Ok::<
                Move,
                Failure,
            >(Move::Next(final(dialogue)@.param, final(dialogue)@.selected))
                && final(dialogue)@.stage == next_stage(old(dialogue)@.stage),
            Err(e) => stage_move(calibrations(vcd@), given@, old(dialogue)@) == Err::<
                Move,
                Failure,
            >(e@) && final(dialogue)@ == old(dialogue)@,
        },
{
    let ghost data = calibrations(vcd@);
    match dialogue.stage {
        Stage::Machine => {
            let machines = list_machines(vcd);
            if machines.len() == 0 {
                return Err(words("No machines found in the correction data."));
            }
            if given.has_machine() {
                dialogue.param.machine = given.machine.clone();
                dialogue.stage = Stage::Applicator;
                Ok(None)
            } else {
                Ok(Some(Question::Machine(machines)))
            }
        },
        Stage::Applicator => {
            let applicators = list_applicators(vcd, dialogue.param.machine.as_str());
            if applicators.len() == 0 {
                return Err(words("No applicators found in the correction data."));
            }
            if given.has_applicator() {
                match settle_applicator(vcd, dialogue, given.applicator.as_str()) {
                    Ok(()) => Ok(None),
                    Err(e) => Err(e),
                }
            } else {
                Ok(Some(Question::Applicator(applicators)))
            }
        },
        Stage::Energy => {
            if dialogue.selected >= vcd.len() {
                return Err(lost_selection(&dialogue.param));
            }
            let cd = &vcd[dialogue.selected];
            assert(cd@ == data[dialogue.selected as int]);
            if cd.get_energies_as_ref().len() == 0 {
                return Err(words("No energy found in the filtered correction data"));
            }
            if given.has_energy() && given.has_depth_zref() {
                if find_decimal(cd.get_energies_as_ref(), given.energy).is_none() {
                    return Err(words("No valid energy was selected"));
                }
                proof {
                    lemma_first_at(cd@.output_factors.energies, given.energy);
                }
                dialogue.param.energy = given.energy;
                dialogue.param.depth_zref = given.depth_zref;
                dialogue.stage = Stage::Fda;
                Ok(None)
            } else {
                Ok(Some(Question::Energy(list_energies(cd))))
            }
        },
        Stage::Fda => {
            if dialogue.selected >= vcd.len() {
                return Err(lost_selection(&dialogue.param));
            }
            let cd = &vcd[dialogue.selected];
            assert(cd@ == data[dialogue.selected as int]);
            if cd.fda.get_ids().len() == 0 {
                return Err(words("No FDA IDs found in filtered correction data"));
            }
            if given.has_fda_id() {
                dialogue.param.fda_id = given.fda_id;
                dialogue.stage = Stage::Ssd;
                Ok(None)
            } else {
                Ok(Some(Question::Fda(list_fda_labels(cd))))
            }
        },
        Stage::Ssd => {
            if given.has_ssd() {
                dialogue.param.ssd = given.ssd;
                dialogue.stage = Stage::DoseZref;
                Ok(None)
            } else {
                Ok(Some(Question::Ssd))
            }
        },
        Stage::DoseZref => {
            if given.has_dose_zref() {
                dialogue.param.dose_zref = given.dose_zref;
                dialogue.stage = Stage::PlannedBeamMu;
                Ok(None)
            } else {
                Ok(Some(Question::DoseZref(dialogue.param.depth_zref)))
            }
        },
        Stage::PlannedBeamMu => {
            if given.has_planned_beam_mu() {
                dialogue.param.planned_beam_mu = given.planned_beam_mu;
                dialogue.stage = Stage::Done;
                Ok(None)
            } else {
                Ok(Some(Question::PlannedBeamMu))
            }
        },
        Stage::Done => Ok(None),
    }
}

/// Gathers the parameters of a calculation as far as that goes without
/// asking: every parameter that was given beforehand is taken, in the order
/// machine, applicator, energy, aperture, distance, dose, planned monitor
/// units.  The result is the first question that has to be put, or the end;
/// the state says which parameters are settled.  After a failure the state
/// is the one in which the failure occurred.
pub fn get_calc_param_input_cli(
    vcd: &Vec<CorrectionData>,
    opt_input_params: Option<&CalcParam>,
    dialogue: &mut Dialogue,
) -> (r: Result<Step, EmuError>)
    ensures
        match r {
            Ok(step) => run(calibrations(vcd@), given_of(opt_input_params), old(dialogue)@) == Ok::<
                (Progress, Turn),
                (Progress, Failure),
            >((final(dialogue)@, step@)),
            Err(e) => run(calibrations(vcd@), given_of(opt_input_params), old(dialogue)@) == Err::<
                (Progress, Turn),
                (Progress, Failure),
            >((final(dialogue)@, e@)),
        },
{
    let unset = CalcParam::new();
    let given: &CalcParam = match opt_input_params {
        Some(c) => c,
        None => &unset,
    };
    let ghost data = calibrations(vcd@);
    loop
        invariant
            data == calibrations(vcd@),
            given@ == given_of(opt_input_params),
            run(data, given@, old(dialogue)@) == run(data, given@, dialogue@),
        decreases stages_left(dialogue.stage),
    {
        if dialogue.stage == Stage::Done {
            return Ok(Step::Done);
        }
        match take_stage(vcd, given, dialogue) {
            Ok(Some(q)) => {
                return Ok(Step::Ask(q));
            },
            Ok(None) => {},
            Err(e) => {
                return Err(e);
            },
        }
    }
}

/// Takes the answer to the question of the current stage and moves on to
/// the next stage.  An answer that settles nothing leaves the state as it
/// was.
pub fn answer(vcd: &Vec<CorrectionData>, dialogue: &mut Dialogue, a: Answer) -> (r: Result<
    (),
    EmuError,
>)
    ensures
        match r {
            Ok(()) => answered(calibrations(vcd@), old(dialogue)@, a) == Ok::<Progress, Failure>(
                final(dialogue)@,
            ),
            Err(e) => answered(calibrations(vcd@), old(dialogue)@, a) == Err::<Progress, Failure>(
                e@,
            ) && final(dialogue)@ == old(dialogue)@,
        },
{
    let ghost data = calibrations(vcd@);
    match dialogue.stage {
        Stage::Machine => {
            let machines = list_machines(vcd);
            match a {
                Answer::Choice(i) => {
                    if i < machines.len() {
                        dialogue.param.machine = machines[i].clone();
                        dialogue.stage = Stage::Applicator;
                        Ok(())
                    } else {
                        Err(invalid_answer())
                    }
                },
                Answer::Value(_) => Err(invalid_answer()),
            }
        },
        Stage::Applicator => {
            let applicators = list_applicators(vcd, dialogue.param.machine.as_str());
            match a {
                Answer::Choice(i) => {
                    if i < applicators.len() {
                        settle_applicator(vcd, dialogue, applicators[i].as_str())
                    } else {
                        Err(invalid_answer())
                    }
                },
                Answer::Value(_) => Err(invalid_answer()),
            }
        },
        Stage::Energy => {
            if dialogue.selected >= vcd.len() {
                return Err(lost_selection(&dialogue.param));
            }
            let cd = &vcd[dialogue.selected];
            assert(cd@ == data[dialogue.selected as int]);
            let energies = list_energies(cd);
            match a {
                Answer::Choice(i) => {
                    if i < energies.len() {
                        let energy = energies[i];
                        dialogue.param.energy = energy;
                        dialogue.param.depth_zref = match cd.get_zref(energy) {
                            Some(z) => z,
                            None => Decimal::zero(),
                        };
                        dialogue.stage = Stage::Fda;
                        Ok(())
                    } else {
                        Err(invalid_answer())
                    }
                },
                Answer::Value(_) => Err(invalid_answer()),
            }
        },
        Stage::Fda => {
            if dialogue.selected >= vcd.len() {
                return Err(lost_selection(&dialogue.param));
            }
            let cd = &vcd[dialogue.selected];
            assert(cd@ == data[dialogue.selected as int]);
            let ids = cd.fda.get_ids();
            match a {
                Answer::Choice(i) => {
                    if i < ids.len() {
                        dialogue.param.fda_id = ids[i];
                        dialogue.stage = Stage::Ssd;
                        Ok(())
                    } else {
                        Err(invalid_answer())
                    }
                },
                Answer::Value(_) => Err(invalid_answer()),
            }
        },
        Stage::Ssd => match a {
            Answer::Value(v) => {
                dialogue.param.ssd = v;
                dialogue.stage = Stage::DoseZref;
                Ok(())
            },
            Answer::Choice(_) => Err(invalid_answer()),
        },
        Stage::DoseZref => match a {
            Answer::Value(v) => {
                dialogue.param.dose_zref = v;
                dialogue.stage = Stage::PlannedBeamMu;
                Ok(())
            },
            Answer::Choice(_) => Err(invalid_answer()),
        },
        Stage::PlannedBeamMu => match a {
            Answer::Value(v) => {
                dialogue.param.planned_beam_mu = v;
                dialogue.stage = Stage::Done;
                Ok(())
            },
            Answer::Choice(_) => Err(invalid_answer()),
        },
        Stage::Done => Err(invalid_answer()),
    }
}

/// What a calculation from given parameters comes to, on data that were
/// loaded: the monitor units with the parameters as they were settled.  A
/// parameter that would have to be asked for is a failure, as nobody is
/// there to ask.
pub open spec fn calculation(data: Seq<Calibration>, given: Query) -> Result<
    (Decimal, Query),
    Failure,
> {
    let start = Progress { stage: Stage::Machine, param: Query::unset(), selected: 0 };
    match run(data, given, start) {
        Err((_, f)) => Err(f),
        Ok((_, Turn::Ask(_))) => Err(Failure::Terminal("A parameter is missing"@)),
        Ok((p, Turn::Done)) => if p.selected >= data.len() {
            Err(Failure::CorrectionDataNotFound(p.param.machine, p.param.applicator))
        } else {
            match monitor_units(
                p.param.dose_zref,
                data[p.selected as int].correction_factor(
                    p.param.energy,
                    p.param.ssd,
                    p.param.fda_id,
                ),
            ) {
                Ok(mu) => Ok((mu, p.param)),
                Err(e) => Err(e@),
            }
        },
    }
}

/// Computes the monitor units for given parameters from calibration data
/// that were loaded.
pub fn calc_mu(vcd: &Vec<CorrectionData>, calc_param: &CalcParam) -> (r: Result<
    (Decimal, CalcParam),
    EmuError,
>)
    ensures
        match r {
            Ok((mu, param)) => calculation(calibrations(vcd@), calc_param@) == Ok::<
                (Decimal, Query),
                Failure,
            >((mu, param@)),
            Err(e) => calculation(calibrations(vcd@), calc_param@) == Err::<
                (Decimal, Query),
                Failure,
            >(e@),
        },
{
    let mut dialogue = Dialogue::new();
    match get_calc_param_input_cli(vcd, Some(calc_param), &mut dialogue) {
        Ok(Step::Done) => {},
        Ok(Step::Ask(_)) => {
            return Err(EmuError::Terminal("A parameter is missing".to_owned()));
        },
        Err(e) => {
            return Err(e);
        },
    }
    if dialogue.selected >= vcd.len() {
        return Err(lost_selection(&dialogue.param));
    }
    match calculate_mu(&dialogue.param, &vcd[dialogue.selected]) {
        Ok(mu) => Ok((mu, dialogue.param)),
        Err(e) => Err(e),
    }
}

/// Loads the calibration data from the files of a directory and computes
/// the monitor units for the given parameters.
pub fn load_data_calc_mu(files: &Vec<DataFile>, calc_param: &CalcParam) -> (r: Result<
    (Decimal, CalcParam),
    EmuError,
>)
    ensures
        match load_model(files@) {
            Err(f) => r is Err && is_load_failure(r->Err_0, f),
            Ok(data) => match r {
                Ok((mu, param)) => calculation(data, calc_param@) == Ok::<
                    (Decimal, Query),
                    Failure,
                >((mu, param@)),
                Err(e) => calculation(data, calc_param@) == Err::<(Decimal, Query), Failure>(e@),
            },
        },
{
    match load_data(files) {
        Ok(vcd) => calc_mu(&vcd, calc_param),
        Err(e) => Err(e),
    }
}

} // verus!
