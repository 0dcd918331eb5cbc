//! The parameters of the win-rate-model loss, which are set once, before they are first used.
use vstd::prelude::*;

verus! {

/// The parameters of the win-rate-model loss.
///
/// The net's side is `q = sigmoid((output * nnue2score - offset) / in_scaling)`, the target's side
/// `p = sigmoid((score - offset) / out_scaling)`, and the loss `|prediction - target|^pow_exp`.
#[derive(Debug, Clone, Copy, PartialEq)]
pub struct WrmParams<T> {
    pub nnue2score: T,
    pub offset: T,
    pub in_scaling: T,
    pub out_scaling: T,
    pub pow_exp: T,
}

/// Why parameters were not set.
#[derive(Clone, Copy, Debug, PartialEq, Eq, Structural)]
pub enum SetParamsError {
    /// The parameters have been used already.
    AlreadyUsed,
    /// The parameters have been set already.
    AlreadySet,
}

/// The parameters in force.
pub struct WrmSettings<T> {
    /// The parameters that hold if none are set.
    pub standard: WrmParams<T>,
    /// The parameters that were set.
    pub chosen: Option<WrmParams<T>>,
    /// Whether the parameters have been used.
    pub used: bool,
}

impl<T> WrmSettings<T> {
    /// The parameters that a use finds.
    pub open spec fn current(self) -> WrmParams<T> {
        match self.chosen {
            Some(params) => params,
            None => self.standard,
        }
    }

    /// The settings after a use.
    pub open spec fn after_use(self) -> Self {
        WrmSettings { used: true, ..self }
    }

    /// Why the parameters cannot be set, if they cannot.
    pub open spec fn refusal(self) -> Option<SetParamsError> {
        if self.used {
            Some(SetParamsError::AlreadyUsed)
        } else if self.chosen is Some {
            Some(SetParamsError::AlreadySet)
        } else {
            None
        }
    }

    /// The settings after an attempt to set the parameters.
    pub open spec fn after_set(self, params: WrmParams<T>) -> Self {
        if self.refusal() is None {
            WrmSettings { chosen: Some(params), ..self }
        } else {
            self
        }
    }

    /// Settings with no parameters set.
    pub fn new(standard: WrmParams<T>) -> (settings: Self)
        ensures
            settings.standard == standard,
            settings.chosen is None,
            !settings.used,
    {
        WrmSettings { standard, chosen: None, used: false }
    }
}

/// The parameters in force.  From here on they cannot be set any more.
pub fn wrm_params<T: Copy>(settings: &mut WrmSettings<T>) -> (params: WrmParams<T>)
    ensures
        params == old(settings).current(),
        *final(settings) == old(settings).after_use(),
{
    settings.used = true;
    match settings.chosen {
        Some(params) => params,
        None => settings.standard,
    }
}

/// Sets the parameters.  This is refused once they have been used, or set.
pub fn set_wrm_params<T: Copy>(settings: &mut WrmSettings<T>, params: WrmParams<T>) -> (done: Result<
    (),
    SetParamsError,
>)
    ensures
        *final(settings) == old(settings).after_set(params),
        done == match old(settings).refusal() {
            Some(error) => Err(error),
            None => Ok(()),
        },
{
    if settings.used {
        return Err(SetParamsError::AlreadyUsed);
    }
    if settings.chosen.is_some() {
        return Err(SetParamsError::AlreadySet);
    }
    settings.chosen = Some(params);
    Ok(())
}

/// Once used, the parameters stay what they are, whatever is tried.
pub proof fn law_used_parameters_stay<T>(settings: WrmSettings<T>, params: WrmParams<T>)
    requires
        settings.used,
    ensures
        settings.after_set(params) == settings,
        settings.after_use() == settings,
{
}

/// Parameters that were set are the ones that a use finds, and setting them again is refused.
pub proof fn law_set_parameters_are_used<T>(
    settings: WrmSettings<T>,
    params: WrmParams<T>,
    other: WrmParams<T>,
)
    requires
        settings.refusal() is None,
    ensures
        settings.after_set(params).current() == params,
        settings.after_set(params).after_use().current() == params,
        settings.after_set(params).refusal() == Some(SetParamsError::AlreadySet),
        settings.after_set(params).after_set(other) == settings.after_set(params),
{
}

/// A use finds the parameters that were set, or the standard ones if none were; it changes nothing
/// but that the parameters have been used.
pub proof fn law_use_finds_the_chosen_parameters<T>(settings: WrmSettings<T>)
    ensures
        settings.chosen is Some ==> settings.current() == settings.chosen->0,
        settings.chosen is None ==> settings.current() == settings.standard,
        settings.after_use().used,
        settings.after_use().chosen == settings.chosen,
        settings.after_use().standard == settings.standard,
        settings.after_use().current() == settings.current(),
{
}

/// Setting is refused exactly if the parameters have been used or set, for the use first where both
/// hold.  A refusal changes nothing; otherwise the parameters are set and nothing else is.
pub proof fn law_setting_is_refused_after_use_or_setting<T>(
    settings: WrmSettings<T>,
    params: WrmParams<T>,
)
    ensures
        settings.refusal() == Some(SetParamsError::AlreadyUsed) <==> settings.used,
        settings.refusal() == Some(SetParamsError::AlreadySet) <==> !settings.used
            && settings.chosen is Some,
        settings.refusal() is None <==> !settings.used && settings.chosen is None,
        settings.used || settings.chosen is Some ==> settings.after_set(params) == settings,
        !settings.used && settings.chosen is None ==> {
            &&& settings.after_set(params).chosen == Some(params)
            &&& !settings.after_set(params).used
            &&& settings.after_set(params).standard == settings.standard
        },
        settings.after_use().refusal() == Some(SetParamsError::AlreadyUsed),
{
}

} // verus!
