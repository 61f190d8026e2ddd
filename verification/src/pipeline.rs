use crate::dataset::Dataset;
use crate::error::Error;
use crate::text::{
    chars_of, contains_pattern, copy_range, find_char, find_from, has_text, is_ascii_letter, is_letter, lemma_find_from,
    pieces, remove_pattern, split_at_pattern, stands_at, text_of, trim_chars, trimmed, without,
};
use vstd::prelude::*;
use vstd::string::*;

verus! {

/// The kinds of transformation that a provenance log can name.
#[derive(Debug, Clone, Copy, PartialEq, Eq, Structural)]
pub enum TransformerKind {
    Align,
    Append,
    Average,
    Baseline,
    Calibration,
    CountConversion,
    Despike,
    Finning,
    Integrate,
    Mask,
    Normalize,
    Offset,
    Reshape,
    Select,
    Shift,
    Subtract,
}

impl TransformerKind {
    /// The name under which the log records a transformation of this kind.
    pub open spec fn tag(self) -> Seq<char> {
        match self {
            TransformerKind::Align => "AlignTransform"@,
            TransformerKind::Append => "AppendTransform"@,
            TransformerKind::Average => "AverageTransform"@,
            TransformerKind::Baseline => "BaselineTransform"@,
            TransformerKind::Calibration => "CalibrationTransform"@,
            TransformerKind::CountConversion => "CountConversionTransform"@,
            TransformerKind::Despike => "DespikeTransform"@,
            TransformerKind::Finning => "FinningTransform"@,
            TransformerKind::Integrate => "IntegrateTransform"@,
            TransformerKind::Mask => "MaskTransform"@,
            TransformerKind::Normalize => "NormalizeTransform"@,
            TransformerKind::Offset => "OffsetTransform"@,
            TransformerKind::Reshape => "ReshapeTransform"@,
            TransformerKind::Select => "SelectTransform"@,
            TransformerKind::Shift => "RamanShiftTransform"@,
            TransformerKind::Subtract => "SubtractTransform"@,
        }
    }

    /// The name under which the log records a transformation of this kind.
    pub fn name(&self) -> (r: &'static str)
        ensures
            r@ == self.tag(),
    {
        match self {
            TransformerKind::Align => "AlignTransform",
            TransformerKind::Append => "AppendTransform",
            TransformerKind::Average => "AverageTransform",
            TransformerKind::Baseline => "BaselineTransform",
            TransformerKind::Calibration => "CalibrationTransform",
            TransformerKind::CountConversion => "CountConversionTransform",
            TransformerKind::Despike => "DespikeTransform",
            TransformerKind::Finning => "FinningTransform",
            TransformerKind::Integrate => "IntegrateTransform",
            TransformerKind::Mask => "MaskTransform",
            TransformerKind::Normalize => "NormalizeTransform",
            TransformerKind::Offset => "OffsetTransform",
            TransformerKind::Reshape => "ReshapeTransform",
            TransformerKind::Select => "SelectTransform",
            TransformerKind::Shift => "RamanShiftTransform",
            TransformerKind::Subtract => "SubtractTransform",
        }
    }

    /// The kind that the log records under `name`, if there is one.
    pub fn from_name(name: &str) -> (r: Option<TransformerKind>)
        ensures
            r == kind_named(name@),
    {
        let wanted = name.to_owned();
        if wanted == "AlignTransform".to_owned() {
            Some(TransformerKind::Align)
        } else if wanted == "AppendTransform".to_owned() {
            Some(TransformerKind::Append)
        } else if wanted == "AverageTransform".to_owned() {
            Some(TransformerKind::Average)
        } else if wanted == "BaselineTransform".to_owned() {
            Some(TransformerKind::Baseline)
        } else if wanted == "CalibrationTransform".to_owned() {
            Some(TransformerKind::Calibration)
        } else if wanted == "CountConversionTransform".to_owned() {
            Some(TransformerKind::CountConversion)
        } else if wanted == "DespikeTransform".to_owned() {
            Some(TransformerKind::Despike)
        } else if wanted == "FinningTransform".to_owned() {
            Some(TransformerKind::Finning)
        } else if wanted == "IntegrateTransform".to_owned() {
            Some(TransformerKind::Integrate)
        } else if wanted == "MaskTransform".to_owned() {
            Some(TransformerKind::Mask)
        } else if wanted == "NormalizeTransform".to_owned() {
            Some(TransformerKind::Normalize)
        } else if wanted == "OffsetTransform".to_owned() {
            Some(TransformerKind::Offset)
        } else if wanted == "ReshapeTransform".to_owned() {
            Some(TransformerKind::Reshape)
        } else if wanted == "SelectTransform".to_owned() {
            Some(TransformerKind::Select)
        } else if wanted == "RamanShiftTransform".to_owned() {
            Some(TransformerKind::Shift)
        } else if wanted == "SubtractTransform".to_owned() {
            Some(TransformerKind::Subtract)
        } else {
            None
        }
    }
}

/// The kind of transformation that has the name `name`.
pub open spec fn kind_named(name: Seq<char>) -> Option<TransformerKind> {
    if name == TransformerKind::Align.tag() {
        Some(TransformerKind::Align)
    } else if name == TransformerKind::Append.tag() {
        Some(TransformerKind::Append)
    } else if name == TransformerKind::Average.tag() {
        Some(TransformerKind::Average)
    } else if name == TransformerKind::Baseline.tag() {
        Some(TransformerKind::Baseline)
    } else if name == TransformerKind::Calibration.tag() {
        Some(TransformerKind::Calibration)
    } else if name == TransformerKind::CountConversion.tag() {
        Some(TransformerKind::CountConversion)
    } else if name == TransformerKind::Despike.tag() {
        Some(TransformerKind::Despike)
    } else if name == TransformerKind::Finning.tag() {
        Some(TransformerKind::Finning)
    } else if name == TransformerKind::Integrate.tag() {
        Some(TransformerKind::Integrate)
    } else if name == TransformerKind::Mask.tag() {
        Some(TransformerKind::Mask)
    } else if name == TransformerKind::Normalize.tag() {
        Some(TransformerKind::Normalize)
    } else if name == TransformerKind::Offset.tag() {
        Some(TransformerKind::Offset)
    } else if name == TransformerKind::Reshape.tag() {
        Some(TransformerKind::Reshape)
    } else if name == TransformerKind::Select.tag() {
        Some(TransformerKind::Select)
    } else if name == TransformerKind::Shift.tag() {
        Some(TransformerKind::Shift)
    } else if name == TransformerKind::Subtract.tag() {
        Some(TransformerKind::Subtract)
    } else {
        None
    }
}

/// No two kinds are recorded under the same name: the name of a kind leads
/// back to that kind.
pub proof fn lemma_kind_names_lead_back(kind: TransformerKind)
    ensures
        kind_named(kind.tag()) == Some(kind),
{
    reveal_strlit("AlignTransform");
    reveal_strlit("AppendTransform");
    reveal_strlit("AverageTransform");
    reveal_strlit("BaselineTransform");
    reveal_strlit("CalibrationTransform");
    reveal_strlit("CountConversionTransform");
    reveal_strlit("DespikeTransform");
    reveal_strlit("FinningTransform");
    reveal_strlit("IntegrateTransform");
    reveal_strlit("MaskTransform");
    reveal_strlit("NormalizeTransform");
    reveal_strlit("OffsetTransform");
    reveal_strlit("ReshapeTransform");
    reveal_strlit("SelectTransform");
    reveal_strlit("RamanShiftTransform");
    reveal_strlit("SubtractTransform");
    assert("AlignTransform"@.len() == 14);
    assert("AppendTransform"@.len() == 15 && "AppendTransform"@[0] == 'A');
    assert("AverageTransform"@.len() == 16 && "AverageTransform"@[0] == 'A');
    assert("BaselineTransform"@.len() == 17 && "BaselineTransform"@[0] == 'B');
    assert("CalibrationTransform"@.len() == 20);
    assert("CountConversionTransform"@.len() == 24);
    assert("DespikeTransform"@.len() == 16 && "DespikeTransform"@[0] == 'D');
    assert("FinningTransform"@.len() == 16 && "FinningTransform"@[0] == 'F');
    assert("IntegrateTransform"@.len() == 18 && "IntegrateTransform"@[0] == 'I');
    assert("MaskTransform"@.len() == 13);
    assert("NormalizeTransform"@.len() == 18 && "NormalizeTransform"@[0] == 'N');
    assert("OffsetTransform"@.len() == 15 && "OffsetTransform"@[0] == 'O');
    assert("ReshapeTransform"@.len() == 16 && "ReshapeTransform"@[0] == 'R');
    assert("SelectTransform"@.len() == 15 && "SelectTransform"@[0] == 'S');
    assert("RamanShiftTransform"@.len() == 19);
    assert("SubtractTransform"@.len() == 17 && "SubtractTransform"@[0] == 'S');
}

/// Whether `line` declares a transformation: `transformation: ` and then
/// nothing but letters.
pub open spec fn is_declaration(line: Seq<char>) -> bool {
    let key = "transformation: "@;
    &&& line.len() >= key.len()
    &&& line.subrange(0, key.len() as int) == key
    &&& forall|i: int| key.len() <= i < line.len() ==> is_letter(#[trigger] line[i])
}

/// The name in the first line of `s`, from the line that starts at `pos` on,
/// that declares a transformation.
pub open spec fn declared_from(s: Seq<char>, pos: int) -> Option<Seq<char>>
    decreases s.len() - pos,
    via declared_from_decreases
{
    if pos < 0 || pos > s.len() {
        None
    } else {
        let end = find_from(s, pos, '\n');
        let line = s.subrange(pos, end);
        if is_declaration(line) {
            Some(line.subrange("transformation: "@.len() as int, line.len() as int))
        } else if end >= s.len() {
            None
        } else {
            declared_from(s, end + 1)
        }
    }
}

#[via_fn]
proof fn declared_from_decreases(s: Seq<char>, pos: int) {
    if 0 <= pos <= s.len() {
        lemma_find_from(s, pos, '\n');
    }
}

/// The transformation that a segment of the log declares. `position` is the
/// number of the segment, for the error: `ConfigParseError` when no line of
/// the segment is a declaration, `UnknownTransformer` when the first
/// declaration names no known kind.
pub open spec fn segment_kind(segment: Seq<char>, position: usize) -> Result<TransformerKind, Error> {
    match declared_from(segment, 0) {
        None => Err(Error::ConfigParseError { segment: position }),
        Some(name) => match kind_named(name) {
            None => Err(Error::UnknownTransformer { segment: position }),
            Some(kind) => Ok(kind),
        },
    }
}

/// Whether `line` declares a transformation.
fn declares(line: &[char], key: &[char]) -> (b: bool)
    requires
        key@ == "transformation: "@,
    ensures
        b == is_declaration(line@),
{
    if !stands_at(line, key, 0) {
        return false;
    }
    let mut i = key.len();
    while i < line.len()
        invariant
            key.len() <= i <= line.len(),
            key@ == "transformation: "@,
            forall|j: int| key.len() <= j < i ==> is_letter(#[trigger] line@[j]),
        decreases line.len() - i,
    {
        if !is_ascii_letter(line[i]) {
            proof {
                assert(!is_letter(line@[i as int]));
            }
            return false;
        }
        i += 1;
    }
    true
}

/// Finds the transformation that a segment of the log declares. The
/// segment is searched line by line for `transformation: <Name>`, where the
/// name is made of letters and ends the line; the first such line counts.
pub fn yaml_segment_to_transform(segment: &str, position: usize) -> (r: Result<TransformerKind, Error>)
    ensures
        r == segment_kind(segment@, position),
{
    let chars = chars_of(segment);
    kind_of_segment(chars.as_slice(), position)
}

fn kind_of_segment(s: &[char], position: usize) -> (r: Result<TransformerKind, Error>)
    ensures
        r == segment_kind(s@, position),
{
    let key = chars_of("transformation: ");
    let n = s.len();
    let mut pos: usize = 0;
    let mut found: Option<String> = None;
    let mut done = false;
    while !done
        invariant
            n == s.len(),
            pos <= n,
            key@ == "transformation: "@,
            !done ==> declared_from(s@, 0) == declared_from(s@, pos as int),
            !done ==> found is None,
            done ==> match found {
                Some(name) => declared_from(s@, 0) == Some(name@),
                None => declared_from(s@, 0) == None::<Seq<char>>,
            },
        decreases n - pos + (if done { 0int } else { 1int }),
    {
        let end = find_char(s, pos, '\n');
        let line = copy_range(s, pos, end);
        let ghost here = declared_from(s@, pos as int);
        if declares(line.as_slice(), key.as_slice()) {
            let name = text_of(line.as_slice(), key.len(), line.len());
            proof {
                assert(here == Some(name@));
            }
            found = Some(name);
            done = true;
        } else if end >= n {
            proof {
                assert(here == None::<Seq<char>>);
            }
            done = true;
        } else {
            proof {
                assert(here == declared_from(s@, end + 1));
            }
            pos = end + 1;
        }
    }
    match found {
        None => Err(Error::ConfigParseError { segment: position }),
        Some(name) => match TransformerKind::from_name(name.as_str()) {
            None => Err(Error::UnknownTransformer { segment: position }),
            Some(kind) => Ok(kind),
        },
    }
}

/// One recorded transformation: its kind, and the segment of the log that
/// holds its configuration.
#[derive(Debug)]
pub struct Step {
    pub kind: TransformerKind,
    pub config: String,
}

/// Recorded steps as mathematical values.
pub open spec fn steps_of(v: Seq<Step>) -> Seq<(TransformerKind, Seq<char>)> {
    Seq::new(v.len(), |i: int| (v[i].kind, v[i].config@))
}

/// A segment of the log without comment marks and without white space at
/// its ends.
pub open spec fn cleaned(piece: Seq<char>) -> Seq<char> {
    trimmed(without(piece, "# "@))
}

/// The steps that the segments from number `k` on record, after those in
/// `acc`. A segment without `transformation: ` records nothing; the first
/// segment that cannot be read ends the reading with its error.
pub open spec fn recorded_from(segments: Seq<Seq<char>>, k: int, acc: Seq<(TransformerKind, Seq<char>)>) -> Result<
    Seq<(TransformerKind, Seq<char>)>,
    Error,
>
    decreases segments.len() - k,
{
    if k < 0 || k >= segments.len() {
        Ok(acc)
    } else {
        let text = cleaned(segments[k]);
        if !has_text(text, "transformation: "@) {
            recorded_from(segments, k + 1, acc)
        } else {
            match segment_kind(text, k as usize) {
                Err(e) => Err(e),
                Ok(kind) => recorded_from(segments, k + 1, acc.push((kind, text))),
            }
        }
    }
}

/// The steps that a provenance log records: the log is cut at each `---`.
pub open spec fn recorded(log: Seq<char>) -> Result<Seq<(TransformerKind, Seq<char>)>, Error> {
    recorded_from(pieces(log, "---"@), 0, Seq::empty())
}

/// The ordered steps of a run, as read from a provenance log.
#[derive(Debug)]
pub struct Pipeline {
    pub transformations: Vec<Step>,
}

impl Pipeline {
    /// Reads the steps back from a provenance log, in the order in which
    /// they were recorded.
    pub fn from_yaml_header(yaml_header: &str) -> (r: Result<Pipeline, Error>)
        ensures
            match r {
                Ok(p) => recorded(yaml_header@) == Ok::<Seq<(TransformerKind, Seq<char>)>, Error>(
                    steps_of(p.transformations@),
                ),
                Err(e) => recorded(yaml_header@) == Err::<Seq<(TransformerKind, Seq<char>)>, Error>(e),
            },
    {
        let chars = chars_of(yaml_header);
        let delimiter = chars_of("---");
        let mark = chars_of("# ");
        let key = chars_of("transformation: ");
        proof {
            reveal_strlit("---");
            reveal_strlit("# ");
            reveal_strlit("transformation: ");
        }
        let segments = split_at_pattern(chars.as_slice(), delimiter.as_slice());
        let ghost parts = pieces(yaml_header@, "---"@);
        let mut steps: Vec<Step> = Vec::new();
        proof {
            assert(steps_of(steps@) =~= Seq::empty());
        }
        let mut k: usize = 0;
        while k < segments.len()
            invariant
                k <= segments.len(),
                segments@.map_values(|v: Vec<char>| v@) == parts,
                parts == pieces(yaml_header@, "---"@),
                mark@ == "# "@,
                mark.len() > 0,
                key@ == "transformation: "@,
                recorded(yaml_header@) == recorded_from(parts, k as int, steps_of(steps@)),
            decreases segments.len() - k,
        {
            proof {
                assert(parts[k as int] == segments@[k as int]@);
            }
            let bare = remove_pattern(segments[k].as_slice(), mark.as_slice());
            let text = trim_chars(bare.as_slice());
            proof {
                assert(text@ == cleaned(parts[k as int]));
            }
            if contains_pattern(text.as_slice(), key.as_slice()) {
                match kind_of_segment(text.as_slice(), k) {
                    Err(e) => {
                        return Err(e);
                    },
                    Ok(kind) => {
                        let ghost before = steps_of(steps@);
                        let config = text_of(text.as_slice(), 0, text.len());
                        proof {
                            assert(text@.subrange(0, text.len() as int) =~= text@);
                        }
                        steps.push(Step { kind, config });
                        proof {
                            assert(steps_of(steps@) =~= before.push((kind, text@)));
                        }
                    },
                }
            }
            k += 1;
        }
        Ok(Pipeline { transformations: steps })
    }
}

/// Records a step in the provenance log of `dataset`: the serialized
/// configuration, then the line `---`.
pub fn write_metadata_yaml(dataset: &mut Dataset, config: &str)
    ensures
        final(dataset).log() == old(dataset).log() + config@ + "---\n"@,
        final(dataset).grid() == old(dataset).grid(),
        final(dataset).comments() == old(dataset).comments(),
{
    dataset.append_metadata(config);
    dataset.append_metadata("---\n");
}

/// Records in the provenance log of `dataset` how its input was read: the
/// line `preprocessor: arguments`, the serialized arguments, and the line
/// `---`.
pub fn write_preprocessor_yaml(dataset: &mut Dataset, arguments: &str)
    ensures
        final(dataset).log() == old(dataset).log() + "preprocessor: arguments\n"@ + arguments@ + "---\n"@,
        final(dataset).grid() == old(dataset).grid(),
        final(dataset).comments() == old(dataset).comments(),
{
    dataset.append_metadata("preprocessor: arguments\n");
    dataset.append_metadata(arguments);
    dataset.append_metadata("---\n");
}

/// The first segment from number `k` on that, cleaned, holds `pat`.
pub open spec fn first_with(segments: Seq<Seq<char>>, k: int, pat: Seq<char>) -> Option<Seq<char>>
    decreases segments.len() - k,
{
    if k < 0 || k >= segments.len() {
        None
    } else if has_text(cleaned(segments[k]), pat) {
        Some(cleaned(segments[k]))
    } else {
        first_with(segments, k + 1, pat)
    }
}

/// The segment of a provenance log that records how the input was read:
/// the first one that holds `preprocessor: arguments`, cleaned.
pub fn preprocessor_segment(yaml_header: &str) -> (r: Option<String>)
    ensures
        match r {
            Some(text) => first_with(pieces(yaml_header@, "---"@), 0, "preprocessor: arguments"@) == Some(text@),
            None => first_with(pieces(yaml_header@, "---"@), 0, "preprocessor: arguments"@) == None::<Seq<char>>,
        },
{
    let chars = chars_of(yaml_header);
    let delimiter = chars_of("---");
    let mark = chars_of("# ");
    let key = chars_of("preprocessor: arguments");
    proof {
        reveal_strlit("---");
        reveal_strlit("# ");
    }
    let segments = split_at_pattern(chars.as_slice(), delimiter.as_slice());
    let ghost parts = pieces(yaml_header@, "---"@);
    let mut k: usize = 0;
    while k < segments.len()
        invariant
            k <= segments.len(),
            segments@.map_values(|v: Vec<char>| v@) == parts,
            mark@ == "# "@,
            mark.len() > 0,
            key@ == "preprocessor: arguments"@,
            parts == pieces(yaml_header@, "---"@),
            first_with(parts, 0, key@) == first_with(parts, k as int, key@),
        decreases segments.len() - k,
    {
        proof {
            assert(parts[k as int] == segments@[k as int]@);
        }
        let bare = remove_pattern(segments[k].as_slice(), mark.as_slice());
        let text = trim_chars(bare.as_slice());
        proof {
            assert(text@ == cleaned(parts[k as int]));
        }
        if contains_pattern(text.as_slice(), key.as_slice()) {
            let found = text_of(text.as_slice(), 0, text.len());
            proof {
                assert(text@.subrange(0, text.len() as int) =~= text@);
                assert(parts.len() == segments.len());
                assert(first_with(parts, k as int, key@) == Some(text@));
            }
            return Some(found);
        }
        proof {
            assert(parts.len() == segments.len());
            assert(first_with(parts, k as int, key@) == first_with(parts, k + 1, key@));
        }
        k += 1;
    }
    None
}

} // verus!
