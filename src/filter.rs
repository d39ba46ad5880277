use vstd::prelude::*;

verus! {

/// The filter circuit that each voice runs.
#[derive(Clone, Copy, Debug, PartialEq, Eq, Structural)]
pub enum FilterModel {
    /// No filter: the signal passes unchanged.
    Bypass,
    RcFilter,
    LadderFilter,
    BiquadFilter,
    SvfSimperFilter,
}

/// Which band a filter passes.
#[derive(Clone, Copy, Debug, PartialEq, Eq, Structural)]
pub enum FilterType {
    Lowpass,
    Bandpass,
    Highpass,
}

/// One stage (12 dB per octave) or two stages (24 dB per octave) of the RC filter.
#[derive(Clone, Copy, Debug, PartialEq, Eq, Structural)]
pub enum FilterOrder {
    _12dB,
    _24dB,
}

/// How the ladder filter integrates its four stages.
#[derive(Clone, Copy, Debug, PartialEq, Eq, Structural)]
pub enum IntegrationMethod {
    EulerFullTanh,
    PredictorCorrectorFullTanh,
    PredictorCorrectorFeedbackTanh,
    TrapezoidalFeedbackTanh,
}

/// How the drive control scales the signal entering a filter model.
#[derive(Clone, Copy, Debug, PartialEq, Eq, Structural)]
pub enum DriveScaling {
    /// Drive is capped at 1: the model does not saturate, so more only adds level.
    AtMostUnity,
    /// Drive is halved.
    Halved,
    /// Drive is used as set.
    Unchanged,
}

/// The filter model that control index `index` selects, clamped to 0..=4.
pub open spec fn model_of(index: i64) -> FilterModel {
    if index < 1 {
        FilterModel::Bypass
    } else if index < 2 {
        FilterModel::RcFilter
    } else if index < 3 {
        FilterModel::LadderFilter
    } else if index < 4 {
        FilterModel::BiquadFilter
    } else {
        FilterModel::SvfSimperFilter
    }
}

/// The filter type that control index `index` selects: below 1 lowpass, 1 bandpass,
/// 2 or more highpass.
pub open spec fn type_of(index: i64) -> FilterType {
    if index < 1 {
        FilterType::Lowpass
    } else if index < 2 {
        FilterType::Bandpass
    } else {
        FilterType::Highpass
    }
}

impl FilterModel {
    pub fn from_index(index: i64) -> (r: FilterModel)
        ensures
            r == model_of(index),
    {
        if index < 1 {
            FilterModel::Bypass
        } else if index < 2 {
            FilterModel::RcFilter
        } else if index < 3 {
            FilterModel::LadderFilter
        } else if index < 4 {
            FilterModel::BiquadFilter
        } else {
            FilterModel::SvfSimperFilter
        }
    }

    /// Biquad, state-variable and bypass take at most unity drive; the ladder takes
    /// half the drive; the RC filter takes it as set.
    pub fn drive_scaling(&self) -> (r: DriveScaling)
        ensures
            r == match *self {
                FilterModel::Bypass | FilterModel::BiquadFilter | FilterModel::SvfSimperFilter => {
                    DriveScaling::AtMostUnity
                },
                FilterModel::LadderFilter => DriveScaling::Halved,
                FilterModel::RcFilter => DriveScaling::Unchanged,
            },
    {
        match self {
            FilterModel::Bypass | FilterModel::BiquadFilter | FilterModel::SvfSimperFilter => {
                DriveScaling::AtMostUnity
            },
            FilterModel::LadderFilter => DriveScaling::Halved,
            FilterModel::RcFilter => DriveScaling::Unchanged,
        }
    }
}

impl FilterType {
    pub fn from_index(index: i64) -> (r: FilterType)
        ensures
            r == type_of(index),
    {
        if index < 1 {
            FilterType::Lowpass
        } else if index < 2 {
            FilterType::Bandpass
        } else {
            FilterType::Highpass
        }
    }
}

impl Default for FilterType {
    fn default() -> (r: FilterType)
        ensures
            r == FilterType::Lowpass,
    {
        FilterType::Lowpass
    }
}

} // verus!
