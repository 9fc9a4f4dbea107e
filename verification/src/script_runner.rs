//! Points returned by a transform script: the reading of their quality text.
use vstd::prelude::*;
use crate::point::{PointType, Quality};
use crate::text::{chars_of, eq_ignore_ascii_case, spec_eq_ignore_ascii_case, string_from_chars};

verus! {

/// "good"
pub open spec fn spec_good_word() -> Seq<char> {
    seq!['g', 'o', 'o', 'd']
}

/// The quality a script point carries when it names none: "good".
pub fn default_quality() -> (s: String)
    ensures
        s@ == spec_good_word(),
{
    let cs: [char; 4] = ['g', 'o', 'o', 'd'];
    assert(cs@ =~= spec_good_word());
    string_from_chars(cs.as_slice())
}

/// The quality named by a script: good, bad, uncertain or invalid in any ASCII
/// case; any other text counts as good.
pub open spec fn spec_parse_quality(s: Seq<char>) -> Quality {
    if spec_eq_ignore_ascii_case(s, spec_good_word()) {
        Quality::Good
    } else if spec_eq_ignore_ascii_case(s, seq!['b', 'a', 'd']) {
        Quality::Bad
    } else if spec_eq_ignore_ascii_case(s, seq!['u', 'n', 'c', 'e', 'r', 't', 'a', 'i', 'n']) {
        Quality::Uncertain
    } else if spec_eq_ignore_ascii_case(s, seq!['i', 'n', 'v', 'a', 'l', 'i', 'd']) {
        Quality::Invalid
    } else {
        Quality::Good
    }
}

/// The quality named by a script.
pub fn parse_quality(s: &str) -> (q: Quality)
    ensures
        q == spec_parse_quality(s@),
{
    let cs = chars_of(s);
    let good: [char; 4] = ['g', 'o', 'o', 'd'];
    let bad: [char; 3] = ['b', 'a', 'd'];
    let uncertain: [char; 9] = ['u', 'n', 'c', 'e', 'r', 't', 'a', 'i', 'n'];
    let invalid: [char; 7] = ['i', 'n', 'v', 'a', 'l', 'i', 'd'];
    assert(good@ =~= spec_good_word());
    assert(bad@ =~= seq!['b', 'a', 'd']);
    assert(uncertain@ =~= seq!['u', 'n', 'c', 'e', 'r', 't', 'a', 'i', 'n']);
    assert(invalid@ =~= seq!['i', 'n', 'v', 'a', 'l', 'i', 'd']);
    if eq_ignore_ascii_case(cs.as_slice(), good.as_slice()) {
        Quality::Good
    } else if eq_ignore_ascii_case(cs.as_slice(), bad.as_slice()) {
        Quality::Bad
    } else if eq_ignore_ascii_case(cs.as_slice(), uncertain.as_slice()) {
        Quality::Uncertain
    } else if eq_ignore_ascii_case(cs.as_slice(), invalid.as_slice()) {
        Quality::Invalid
    } else {
        Quality::Good
    }
}


/// A point as a transform script reports it; `value` is the script's value as
/// the caller decoded it.
#[derive(Debug, Clone)]
pub struct PluginDataPoint<V> {
    pub point_id: u32,
    /// "T", "S", "C" or "A".
    pub point_type: String,
    pub value: V,
    pub quality: String,
}

/// A point taken over from a script.
#[derive(Debug, Clone)]
pub struct ScriptPoint<V> {
    pub id: u32,
    pub point_type: PointType,
    pub value: V,
    pub quality: Quality,
}

/// Why the answer of a script was refused.
#[derive(Debug, Clone, PartialEq, Eq)]
pub enum ScriptError {
    /// A point kind other than T, S, C or A.
    InvalidPointType(String),
    /// The script reported an error.
    Transform(String),
}

/// The kind named by its letter: T telemetry, S signal, C control, A adjustment.
pub open spec fn spec_point_type_from_code(s: Seq<char>) -> Option<PointType> {
    if s == seq!['T'] {
        Some(PointType::Telemetry)
    } else if s == seq!['S'] {
        Some(PointType::Signal)
    } else if s == seq!['C'] {
        Some(PointType::Control)
    } else if s == seq!['A'] {
        Some(PointType::Adjustment)
    } else {
        None
    }
}

/// The kind named by its letter.
pub fn point_type_from_code(s: &str) -> (r: Option<PointType>)
    ensures
        r == spec_point_type_from_code(s@),
{
    let cs = chars_of(s);
    if cs.len() != 1 {
        assert(cs@ != seq!['T'] && cs@ != seq!['S'] && cs@ != seq!['C'] && cs@ != seq!['A']) by {
            if cs@ == seq!['T'] || cs@ == seq!['S'] || cs@ == seq!['C'] || cs@ == seq!['A'] {
                assert(cs@.len() == 1);
            }
        }
        return None;
    }
    let c = cs[0];
    assert(cs@ =~= seq![c]);
    if c == 'T' {
        Some(PointType::Telemetry)
    } else if c == 'S' {
        Some(PointType::Signal)
    } else if c == 'C' {
        Some(PointType::Control)
    } else if c == 'A' {
        Some(PointType::Adjustment)
    } else {
        assert(seq![c] != seq!['T'] && seq![c] != seq!['S'] && seq![c] != seq!['C'] && seq![c] != seq!['A'])
            by {
            if seq![c] == seq!['T'] {
                assert(seq![c][0] == 'T');
            }
            if seq![c] == seq!['S'] {
                assert(seq![c][0] == 'S');
            }
            if seq![c] == seq!['C'] {
                assert(seq![c][0] == 'C');
            }
            if seq![c] == seq!['A'] {
                assert(seq![c][0] == 'A');
            }
        }
        None
    }
}

/// The points taken over from a script's answer, in order, or the text of the
/// first kind that is not a known letter.
pub open spec fn spec_convert_points<V>(ps: Seq<PluginDataPoint<V>>) -> Result<Seq<(u32, PointType, Quality)>, Seq<char>>
    decreases ps.len(),
{
    if ps.len() == 0 {
        Ok(Seq::empty())
    } else {
        match spec_convert_points(ps.drop_last()) {
            Err(e) => Err(e),
            Ok(prev) => {
                let p = ps.last();
                match spec_point_type_from_code(p.point_type@) {
                    None => Err(p.point_type@),
                    Some(t) => Ok(prev.push((p.point_id, t, spec_parse_quality(p.quality@)))),
                }
            },
        }
    }
}

proof fn lemma_convert_error_stays<V>(ps: Seq<PluginDataPoint<V>>, i: int)
    requires
        0 <= i <= ps.len(),
        spec_convert_points(ps.take(i)) is Err,
    ensures
        spec_convert_points(ps) == spec_convert_points(ps.take(i)),
    decreases ps.len() - i,
{
    if i < ps.len() {
        assert(ps.take(i + 1).drop_last() =~= ps.take(i));
        lemma_convert_error_stays(ps, i + 1);
    } else {
        assert(ps.take(i) =~= ps);
    }
}

/// Take over the points of a script's answer: each kind read from its letter,
/// each quality from its text, each value copied.
pub fn convert_plugin_points<V: Clone>(points: &[PluginDataPoint<V>]) -> (r: Result<Vec<ScriptPoint<V>>, ScriptError>)
    ensures
        match spec_convert_points(points@) {
            Ok(vs) => r matches Ok(out) && out@.len() == vs.len() && forall|k: int|
                0 <= k < vs.len() ==> {
                    &&& (#[trigger] out@[k]).id == vs[k].0
                    &&& out@[k].point_type == vs[k].1
                    &&& out@[k].quality == vs[k].2
                    &&& cloned(points@[k].value, out@[k].value)
                },
            Err(t) => r matches Err(ScriptError::InvalidPointType(s)) && s@ == t,
        },
{
    let mut out: Vec<ScriptPoint<V>> = Vec::new();
    let mut i: usize = 0;
    while i < points.len()
        invariant
            i <= points@.len(),
            spec_convert_points(points@.take(i as int)) is Ok,
            ({
                let vs = spec_convert_points(points@.take(i as int))->Ok_0;
                &&& out@.len() == vs.len()
                &&& vs.len() == i
                &&& forall|k: int|
                    0 <= k < vs.len() ==> {
                        &&& (#[trigger] out@[k]).id == vs[k].0
                        &&& out@[k].point_type == vs[k].1
                        &&& out@[k].quality == vs[k].2
                        &&& cloned(points@[k].value, out@[k].value)
                    }
            }),
        decreases points@.len() - i,
    {
        assert(points@.take(i + 1).drop_last() =~= points@.take(i as int));
        let p = &points[i];
        match point_type_from_code(p.point_type.as_str()) {
            Some(t) => {
                let q = parse_quality(p.quality.as_str());
                out.push(ScriptPoint { id: p.point_id, point_type: t, value: p.value.clone(), quality: q });
            },
            None => {
                proof {
                    lemma_convert_error_stays(points@, i as int + 1);
                }
                return Err(ScriptError::InvalidPointType(p.point_type.clone()));
            },
        }
        i += 1;
    }
    assert(points@.take(points@.len() as int) =~= points@);
    Ok(out)
}

/// The points of a script's answer: the script's error when it reports one,
/// otherwise its points (none when it sent none) taken over.
pub fn response_points<V: Clone>(error: Option<String>, points: Option<Vec<PluginDataPoint<V>>>) -> (r: Result<
    Vec<ScriptPoint<V>>,
    ScriptError,
>)
    ensures
        error matches Some(e) ==> r == Err::<Vec<ScriptPoint<V>>, ScriptError>(ScriptError::Transform(e)),
        error is None && points is None ==> (r matches Ok(v) && v@.len() == 0),
        error is None && points is Some ==> (match spec_convert_points(points->Some_0@) {
            Ok(vs) => r matches Ok(out) && out@.len() == vs.len() && forall|k: int|
                0 <= k < vs.len() ==> {
                    &&& (#[trigger] out@[k]).id == vs[k].0
                    &&& out@[k].point_type == vs[k].1
                    &&& out@[k].quality == vs[k].2
                    &&& cloned(points->Some_0@[k].value, out@[k].value)
                },
            Err(t) => r matches Err(ScriptError::InvalidPointType(s)) && s@ == t,
        }),
{
    match error {
        Some(e) => Err(ScriptError::Transform(e)),
        None => match points {
            Some(ps) => convert_plugin_points(ps.as_slice()),
            None => Ok(Vec::new()),
        },
    }
}

} // verus!
