//! The sensor model: adapters and their temperature inputs, as they are
//! read out of a sensor report.
//!
//! A report is a JSON object. Each member is a chip, whose body is again an
//! object; each member of a chip that is an object is a feature; and each
//! member of a feature whose key holds both `temp` and `input` is a
//! temperature reading. Members come in the order in which the JSON reader
//! yields them; with the default features of `serde_json` that is the
//! order of their keys. A reading is read from the text that the JSON
//! reader prints for the value, which for a number is the shortest decimal
//! number that names the same 64-bit float, or the integer as it stands.

use crate::decimal::{sentinel_value, Decimal};
use crate::json::{
    json_document, json_members, json_node, map_entries, read_value, value_text, JsonNode,
};
use crate::literal::decimal_of_text;
use crate::text::{chars_of, contains, has_part, trim, trimmed};
use crate::views::{lemma_views_push, views};
use vstd::prelude::*;

verus! {

/// One temperature sensor reading.
#[derive(Debug, Clone)]
pub struct Input {
    /// The label of the feature that the reading belongs to.
    pub name: String,
    /// Degrees Celsius; [`Decimal::sentinel`] where the value could not be
    /// read as a decimal number.
    pub temp: Decimal,
}

/// A named sensor chip with its readings.
#[derive(Debug, Clone)]
pub struct Adapter {
    /// The key of the chip in the report.
    pub name: String,
    /// The readings of the chip, in report order.
    pub inputs: Vec<Input>,
}

/// An [`Input`] with its name as a sequence of characters.
pub struct InputModel {
    pub name: Seq<char>,
    pub temp: Decimal,
}

/// An [`Adapter`] with its name and inputs as sequences.
pub struct AdapterModel {
    pub name: Seq<char>,
    pub inputs: Seq<InputModel>,
}

impl View for Input {
    type V = InputModel;

    open spec fn view(&self) -> InputModel {
        InputModel { name: self.name@, temp: self.temp }
    }
}

impl View for Adapter {
    type V = AdapterModel;

    open spec fn view(&self) -> AdapterModel {
        AdapterModel { name: self.name@, inputs: views(self.inputs@) }
    }
}

impl Default for Input {
    /// An input without a name, at zero degrees.
    fn default() -> (result: Input)
        ensures
            result@ == (InputModel {
                name: Seq::empty(),
                temp: Decimal { negative: false, coefficient: 0, exponent: 0 },
            }),
    {
        Input { name: String::new(), temp: Decimal::new(false, 0, 0) }
    }
}

impl Default for Adapter {
    /// An adapter without a name and without inputs.
    fn default() -> (result: Adapter)
        ensures
            result@ == (AdapterModel { name: Seq::empty(), inputs: Seq::empty() }),
    {
        let result = Adapter { name: String::new(), inputs: Vec::new() };
        assert(views(result.inputs@) =~= Seq::empty());
        result
    }
}

impl AdapterModel {
    /// What holds of every adapter that a report yields: it has at least one
    /// input, and no input reads zero.
    pub open spec fn well_formed(self) -> bool {
        &&& self.inputs.len() > 0
        &&& forall|i: int|
            0 <= i < self.inputs.len() ==> !(#[trigger] self.inputs[i]).temp.is_zero_value()
    }
}

/// A member of a feature: its key, and its value as JSON text.
#[derive(Debug)]
pub struct Subfeature {
    pub key: String,
    pub value: String,
}

/// A member of a chip: its key and, where its value is an object, the
/// members of that object.
#[derive(Debug)]
pub struct Feature {
    pub name: String,
    pub subfeatures: Option<Vec<Subfeature>>,
}

/// A member of the report whose value is an object: its key and the
/// members of the object.
#[derive(Debug)]
pub struct Chip {
    pub name: String,
    pub features: Vec<Feature>,
}

/// A [`Subfeature`] as sequences of characters.
pub struct SubfeatureModel {
    pub key: Seq<char>,
    pub value: Seq<char>,
}

/// A [`Feature`] as sequences.
pub struct FeatureModel {
    pub name: Seq<char>,
    pub subfeatures: Option<Seq<SubfeatureModel>>,
}

/// A [`Chip`] as sequences.
pub struct ChipModel {
    pub name: Seq<char>,
    pub features: Seq<FeatureModel>,
}

impl View for Subfeature {
    type V = SubfeatureModel;

    open spec fn view(&self) -> SubfeatureModel {
        SubfeatureModel { key: self.key@, value: self.value@ }
    }
}

impl View for Feature {
    type V = FeatureModel;

    open spec fn view(&self) -> FeatureModel {
        FeatureModel {
            name: self.name@,
            subfeatures: match self.subfeatures {
                Some(subfeatures) => Some(views(subfeatures@)),
                None => None,
            },
        }
    }
}

impl View for Chip {
    type V = ChipModel;

    open spec fn view(&self) -> ChipModel {
        ChipModel { name: self.name@, features: views(self.features@) }
    }
}

/// Whether a key names a temperature reading: it holds both `temp` and
/// `input`.
pub open spec fn is_temperature_key(key: Seq<char>) -> bool {
    has_part(key, "temp"@) && has_part(key, "input"@)
}

/// The reading that a value gives: the decimal number that its text writes
/// between white space, or the sentinel where it writes none that can be
/// kept.
pub open spec fn reading_of(value: Seq<char>) -> Decimal {
    match decimal_of_text(trimmed(value)) {
        Some(number) => number,
        None => sentinel_value(),
    }
}

/// Whether a subfeature yields an input: its key names a temperature
/// reading, and the reading is not zero. A reading of zero means that no
/// sensor is present.
pub open spec fn yields_input(subfeature: SubfeatureModel) -> bool {
    is_temperature_key(subfeature.key) && !reading_of(subfeature.value).is_zero_value()
}

/// The inputs that the subfeatures of the feature `name` yield, in order.
pub open spec fn subfeature_inputs(name: Seq<char>, subfeatures: Seq<SubfeatureModel>) -> Seq<
    InputModel,
>
    decreases subfeatures.len(),
{
    if subfeatures.len() == 0 {
        Seq::empty()
    } else {
        let before = subfeature_inputs(name, subfeatures.drop_last());
        if yields_input(subfeatures.last()) {
            before.push(InputModel { name, temp: reading_of(subfeatures.last().value) })
        } else {
            before
        }
    }
}

/// The inputs of one feature: none where its value is no object.
pub open spec fn feature_inputs(feature: FeatureModel) -> Seq<InputModel> {
    match feature.subfeatures {
        Some(subfeatures) => subfeature_inputs(feature.name, subfeatures),
        None => Seq::empty(),
    }
}

/// The inputs of the features of a chip, in order.
pub open spec fn chip_inputs(features: Seq<FeatureModel>) -> Seq<InputModel>
    decreases features.len(),
{
    if features.len() == 0 {
        Seq::empty()
    } else {
        chip_inputs(features.drop_last()) + feature_inputs(features.last())
    }
}

/// The adapters that the chips yield, in order: one for each chip that has
/// an input.
pub open spec fn adapters_of(chips: Seq<ChipModel>) -> Seq<AdapterModel>
    decreases chips.len(),
{
    if chips.len() == 0 {
        Seq::empty()
    } else {
        let before = adapters_of(chips.drop_last());
        let inputs = chip_inputs(chips.last().features);
        if inputs.len() > 0 {
            before.push(AdapterModel { name: chips.last().name, inputs })
        } else {
            before
        }
    }
}

/// Every input that subfeatures yield carries the name of the feature and
/// the reading of one of the subfeatures that yield an input; none reads
/// zero.
pub proof fn lemma_subfeature_inputs(name: Seq<char>, subfeatures: Seq<SubfeatureModel>)
    ensures
        forall|i: int|
            0 <= i < subfeature_inputs(name, subfeatures).len() ==> {
                let input = #[trigger] subfeature_inputs(name, subfeatures)[i];
                &&& input.name == name
                &&& !input.temp.is_zero_value()
                &&& exists|j: int|
                    0 <= j < subfeatures.len() && yields_input(#[trigger] subfeatures[j])
                        && input.temp == reading_of(subfeatures[j].value)
            },
    decreases subfeatures.len(),
{
    if subfeatures.len() > 0 {
        let rest = subfeatures.drop_last();
        lemma_subfeature_inputs(name, rest);
        assert forall|i: int| 0 <= i < subfeature_inputs(name, subfeatures).len() implies {
            let input = #[trigger] subfeature_inputs(name, subfeatures)[i];
            &&& input.name == name
            &&& !input.temp.is_zero_value()
            &&& exists|j: int|
                0 <= j < subfeatures.len() && yields_input(#[trigger] subfeatures[j]) && input.temp
                    == reading_of(subfeatures[j].value)
        } by {
            let input = subfeature_inputs(name, subfeatures)[i];
            if i < subfeature_inputs(name, rest).len() {
                assert(input == subfeature_inputs(name, rest)[i]);
                let j = choose|j: int|
                    0 <= j < rest.len() && yields_input(#[trigger] rest[j]) && input.temp
                        == reading_of(rest[j].value);
                assert(subfeatures[j] == rest[j]);
            } else {
                assert(yields_input(subfeatures[subfeatures.len() - 1]));
            }
        }
    }
}

/// No input of a chip reads zero.
pub proof fn lemma_chip_inputs_nonzero(features: Seq<FeatureModel>)
    ensures
        forall|i: int|
            0 <= i < chip_inputs(features).len() ==> !(#[trigger] chip_inputs(
                features,
            )[i]).temp.is_zero_value(),
    decreases features.len(),
{
    if features.len() > 0 {
        let all = chip_inputs(features);
        let before = chip_inputs(features.drop_last());
        let found = feature_inputs(features.last());
        lemma_chip_inputs_nonzero(features.drop_last());
        match features.last().subfeatures {
            Some(subfeatures) => lemma_subfeature_inputs(features.last().name, subfeatures),
            None => {},
        }
        assert forall|i: int| 0 <= i < all.len() implies !(
        #[trigger] all[i]).temp.is_zero_value() by {
            if i < before.len() {
                assert(all[i] == before[i]);
            } else {
                assert(all[i] == found[i - before.len()]);
            }
        }
    }
}

/// Every adapter that chips yield is well formed: a value of zero never
/// appears in the result, and neither does an adapter without inputs.
pub proof fn lemma_adapters_well_formed(chips: Seq<ChipModel>)
    ensures
        forall|i: int|
            0 <= i < adapters_of(chips).len() ==> (#[trigger] adapters_of(chips)[i]).well_formed(),
    decreases chips.len(),
{
    if chips.len() > 0 {
        let all = adapters_of(chips);
        let before = adapters_of(chips.drop_last());
        lemma_adapters_well_formed(chips.drop_last());
        lemma_chip_inputs_nonzero(chips.last().features);
        assert forall|i: int| 0 <= i < all.len() implies (#[trigger] all[i]).well_formed() by {
            if i < before.len() {
                assert(all[i] == before[i]);
            } else {
                assert(all[i].inputs == chip_inputs(chips.last().features));
            }
        }
    }
}

/// Every adapter in the result stands for a chip of the report, under the
/// chip's name and with the chip's inputs; the chips keep their order. A
/// chip without inputs has no adapter.
pub proof fn lemma_adapters_from_chips(chips: Seq<ChipModel>)
    ensures
        adapters_of(chips).len() <= chips.len(),
        forall|i: int|
            0 <= i < adapters_of(chips).len() ==> exists|j: int|
                i <= j < chips.len() && (#[trigger] adapters_of(chips)[i]).name == (
                #[trigger] chips[j]).name && adapters_of(chips)[i].inputs == chip_inputs(
                    chips[j].features,
                ),
        forall|j: int|
            0 <= j < chips.len() && chip_inputs((#[trigger] chips[j]).features).len() > 0
                ==> exists|i: int|
                0 <= i < adapters_of(chips).len() && (#[trigger] adapters_of(chips)[i]).name
                    == chips[j].name && adapters_of(chips)[i].inputs == chip_inputs(
                    chips[j].features,
                ),
    decreases chips.len(),
{
    if chips.len() > 0 {
        let rest = chips.drop_last();
        let all = adapters_of(chips);
        lemma_adapters_from_chips(rest);
        assert forall|i: int| 0 <= i < all.len() implies exists|j: int|
            i <= j < chips.len() && (#[trigger] all[i]).name == (#[trigger] chips[j]).name
                && all[i].inputs == chip_inputs(chips[j].features) by {
            if i < adapters_of(rest).len() {
                assert(all[i] == adapters_of(rest)[i]);
                let j = choose|j: int|
                    i <= j < rest.len() && (#[trigger] adapters_of(rest)[i]).name == (
                    #[trigger] rest[j]).name && adapters_of(rest)[i].inputs == chip_inputs(
                        rest[j].features,
                    );
                assert(chips[j] == rest[j]);
            } else {
                assert(all[i].name == chips[chips.len() - 1].name);
            }
        }
        assert forall|j: int|
            0 <= j < chips.len() && chip_inputs((#[trigger] chips[j]).features).len()
                > 0 implies exists|i: int|
            0 <= i < all.len() && (#[trigger] all[i]).name == chips[j].name && all[i].inputs
                == chip_inputs(chips[j].features) by {
            if j < rest.len() {
                assert(chips[j] == rest[j]);
                let i = choose|i: int|
                    0 <= i < adapters_of(rest).len() && (#[trigger] adapters_of(rest)[i]).name
                        == rest[j].name && adapters_of(rest)[i].inputs == chip_inputs(
                        rest[j].features,
                    );
                assert(all[i] == adapters_of(rest)[i]);
            } else {
                assert(all[all.len() - 1].name == chips[j].name);
            }
        }
    }
}

/// Whether no two chips have the same name.
pub open spec fn distinct_chips(chips: Seq<ChipModel>) -> bool {
    forall|i: int, j: int|
        0 <= i < j < chips.len() ==> (#[trigger] chips[i]).name != (#[trigger] chips[j]).name
}

/// Whether no two adapters have the same name.
pub open spec fn distinct_adapters(adapters: Seq<AdapterModel>) -> bool {
    forall|i: int, j: int|
        0 <= i < j < adapters.len() ==> (#[trigger] adapters[i]).name != (
        #[trigger] adapters[j]).name
}

/// Chips with different names yield adapters with different names, and
/// every adapter has the name of a chip.
pub proof fn lemma_adapter_names(chips: Seq<ChipModel>)
    requires
        distinct_chips(chips),
    ensures
        distinct_adapters(adapters_of(chips)),
        forall|i: int|
            0 <= i < adapters_of(chips).len() ==> exists|j: int|
                0 <= j < chips.len() && (#[trigger] chips[j]).name == (#[trigger] adapters_of(
                    chips,
                )[i]).name,
    decreases chips.len(),
{
    if chips.len() > 0 {
        let rest = chips.drop_last();
        let all = adapters_of(chips);
        let before = adapters_of(rest);
        assert(distinct_chips(rest)) by {
            assert forall|i: int, j: int| 0 <= i < j < rest.len() implies (#[trigger] rest[i]).name
                != (#[trigger] rest[j]).name by {
                assert(rest[i] == chips[i] && rest[j] == chips[j]);
            }
        }
        lemma_adapter_names(rest);
        assert forall|i: int| 0 <= i < all.len() implies exists|j: int|
            0 <= j < chips.len() && (#[trigger] chips[j]).name == (#[trigger] all[i]).name by {
            if i < before.len() {
                assert(all[i] == before[i]);
                let j = choose|j: int|
                    0 <= j < rest.len() && (#[trigger] rest[j]).name == before[i].name;
                assert(chips[j] == rest[j]);
            } else {
                assert(chips[chips.len() - 1].name == all[i].name);
            }
        }
        assert forall|i: int, j: int| 0 <= i < j < all.len() implies (#[trigger] all[i]).name != (
        #[trigger] all[j]).name by {
            assert(all[i] == before[i]);
            if j < before.len() {
                assert(all[j] == before[j]);
            } else {
                let k = choose|k: int|
                    0 <= k < rest.len() && (#[trigger] rest[k]).name == before[i].name;
                assert(chips[k] == rest[k]);
                assert(chips[k].name != chips[chips.len() - 1].name);
            }
        }
    }
}

/// Whether a key names a temperature reading.
pub fn names_temperature(key: &str) -> (result: bool)
    ensures
        result == is_temperature_key(key@),
{
    let chars = chars_of(key);
    contains(&chars, &chars_of("temp")) && contains(&chars, &chars_of("input"))
}

/// Reads the value of a temperature field from its text. The decimal
/// number that the text writes is kept as it is written; a text that
/// writes none gives the sentinel.
pub fn reading_from_text(value: &str) -> (result: Decimal)
    ensures
        result == reading_of(value@),
        decimal_of_text(trimmed(value@)) matches Some(number) ==> result == number,
        decimal_of_text(trimmed(value@)) is None ==> result == sentinel_value(),
{
    let chars = trim(&chars_of(value));
    match Decimal::from_chars(&chars) {
        Some(number) => number,
        None => Decimal::sentinel(),
    }
}

/// Collects the inputs of one feature.
pub fn inputs_of_feature(feature: &Feature) -> (result: Vec<Input>)
    ensures
        views(result@) == feature_inputs(feature@),
{
    let mut result: Vec<Input> = Vec::new();
    proof {
        assert(views(result@) =~= Seq::empty());
    }
    match &feature.subfeatures {
        None => {},
        Some(subfeatures) => {
            let mut i: usize = 0;
            proof {
                assert(views(subfeatures@).take(0) =~= Seq::empty());
            }
            while i < subfeatures.len()
                invariant
                    i <= subfeatures.len(),
                    views(result@) == subfeature_inputs(
                        feature.name@,
                        views(subfeatures@).take(i as int),
                    ),
                decreases subfeatures.len() - i,
            {
                let subfeature = &subfeatures[i];
                proof {
                    let seen = views(subfeatures@).take(i + 1);
                    assert(seen.drop_last() =~= views(subfeatures@).take(i as int));
                    assert(seen.last() == subfeature@);
                }
                if names_temperature(subfeature.key.as_str()) {
                    let temp = reading_from_text(subfeature.value.as_str());
                    if !temp.is_zero() {
                        let input = Input { name: feature.name.clone(), temp };
                        proof {
                            lemma_views_push(result@, input);
                        }
                        result.push(input);
                    }
                }
                i += 1;
            }
            proof {
                assert(views(subfeatures@).take(subfeatures.len() as int) =~= views(
                    subfeatures@,
                ));
            }
        },
    }
    result
}

/// Collects the inputs of the features of a chip.
pub fn inputs_of_chip(chip: &Chip) -> (result: Vec<Input>)
    ensures
        views(result@) == chip_inputs(chip@.features),
{
    let mut result: Vec<Input> = Vec::new();
    let mut i: usize = 0;
    proof {
        assert(views(result@) =~= Seq::empty());
        assert(chip@.features.take(0) =~= Seq::empty());
    }
    while i < chip.features.len()
        invariant
            i <= chip.features.len(),
            views(result@) == chip_inputs(chip@.features.take(i as int)),
        decreases chip.features.len() - i,
    {
        let mut found = inputs_of_feature(&chip.features[i]);
        proof {
            let seen = chip@.features.take(i + 1);
            assert(seen.drop_last() =~= chip@.features.take(i as int));
            assert(seen.last() == chip.features[i as int]@);
            assert(views(result@ + found@) =~= views(result@) + views(found@));
        }
        result.append(&mut found);
        i += 1;
    }
    proof {
        assert(chip@.features.take(chip.features.len() as int) =~= chip@.features);
    }
    result
}

/// Builds the adapters of a report from its chips: for each chip the
/// readings that its features yield, and no adapter for a chip that
/// yields none.
pub fn build_adapters(chips: &Vec<Chip>) -> (result: Vec<Adapter>)
    ensures
        views(result@) == adapters_of(views(chips@)),
        forall|i: int| 0 <= i < result@.len() ==> (#[trigger] result@[i])@.well_formed(),
{
    let mut result: Vec<Adapter> = Vec::new();
    let mut i: usize = 0;
    proof {
        assert(views(result@) =~= Seq::empty());
        assert(views(chips@).take(0) =~= Seq::empty());
    }
    while i < chips.len()
        invariant
            i <= chips.len(),
            views(result@) == adapters_of(views(chips@).take(i as int)),
        decreases chips.len() - i,
    {
        let inputs = inputs_of_chip(&chips[i]);
        proof {
            let seen = views(chips@).take(i + 1);
            assert(seen.drop_last() =~= views(chips@).take(i as int));
            assert(seen.last() == chips[i as int]@);
        }
        if inputs.len() > 0 {
            let adapter = Adapter { name: chips[i].name.clone(), inputs };
            proof {
                lemma_views_push(result@, adapter);
            }
            result.push(adapter);
        }
        i += 1;
    }
    proof {
        assert(views(chips@).take(chips.len() as int) =~= views(chips@));
        lemma_adapters_well_formed(views(chips@));
        assert forall|i: int| 0 <= i < result@.len() implies (
        #[trigger] result@[i])@.well_formed() by {
            assert(views(result@)[i] == result@[i]@);
        }
    }
    result
}

/// Why a sensor report could not be read.
#[derive(Clone, Copy, Debug, PartialEq, Eq, Structural)]
pub enum SensorError {
    /// The text is not JSON, or its root is not an object whose members
    /// are all objects.
    MalformedInput,
}

/// The subfeature that a member of a feature stands for.
pub open spec fn subfeature_of(member: (Seq<char>, JsonNode)) -> SubfeatureModel {
    SubfeatureModel { key: member.0, value: member.1.text }
}

/// The feature that a member of a chip stands for.
pub open spec fn feature_of(member: (Seq<char>, JsonNode)) -> FeatureModel {
    FeatureModel {
        name: member.0,
        subfeatures: match member.1.members {
            Some(members) => Some(members.map_values(|m: (Seq<char>, JsonNode)| subfeature_of(m))),
            None => None,
        },
    }
}

/// The chip that a member of the report stands for. Its features are those
/// of the member's object; a member that is no object has none.
pub open spec fn chip_of(member: (Seq<char>, JsonNode)) -> ChipModel {
    ChipModel {
        name: member.0,
        features: match member.1.members {
            Some(members) => members.map_values(|m: (Seq<char>, JsonNode)| feature_of(m)),
            None => Seq::empty(),
        },
    }
}

/// Whether a JSON value is a sensor report: an object whose members are
/// all objects.
pub open spec fn is_report(root: JsonNode) -> bool {
    root.members matches Some(members) && forall|i: int|
        0 <= i < members.len() ==> (#[trigger] members[i]).1.members is Some
}

/// The chips of a sensor report, in the order of its members.
pub open spec fn chips_of(root: JsonNode) -> Seq<ChipModel> {
    match root.members {
        Some(members) => members.map_values(|m: (Seq<char>, JsonNode)| chip_of(m)),
        None => Seq::empty(),
    }
}

/// The chips that a text holds, where it is a sensor report.
pub open spec fn report_of(text: Seq<char>) -> Option<Seq<ChipModel>> {
    match json_document(text) {
        Some(root) => if is_report(root) {
            Some(chips_of(root))
        } else {
            None
        },
        None => None,
    }
}

/// Reads the members of a feature.
fn read_subfeatures(object: &serde_json::Map<String, serde_json::Value>) -> (result: Vec<
    Subfeature,
>)
    ensures
        views(result@) == json_members(*object).map_values(
            |m: (Seq<char>, JsonNode)| subfeature_of(m),
        ),
{
    let entries = map_entries(object);
    let mut result: Vec<Subfeature> = Vec::new();
    let mut i: usize = 0;
    while i < entries.len()
        invariant
            i <= entries.len(),
            entries@.len() == json_members(*object).len(),
            forall|k: int|
                0 <= k < entries@.len() ==> (#[trigger] entries@[k]).0@ == json_members(
                    *object,
                )[k].0 && json_node(*entries@[k].1) == json_members(*object)[k].1,
            result@.len() == i,
            forall|k: int|
                0 <= k < i ==> (#[trigger] result@[k])@ == subfeature_of(json_members(*object)[k]),
        decreases entries.len() - i,
    {
        let key: &String = entries[i].0;
        let value: &serde_json::Value = entries[i].1;
        result.push(Subfeature { key: key.clone(), value: value_text(value) });
        i += 1;
    }
    proof {
        assert(views(result@) =~= json_members(*object).map_values(
            |m: (Seq<char>, JsonNode)| subfeature_of(m),
        ));
    }
    result
}

/// Reads the members of a chip.
fn read_features(object: &serde_json::Map<String, serde_json::Value>) -> (result: Vec<Feature>)
    ensures
        views(result@) == json_members(*object).map_values(
            |m: (Seq<char>, JsonNode)| feature_of(m),
        ),
{
    let entries = map_entries(object);
    let mut result: Vec<Feature> = Vec::new();
    let mut i: usize = 0;
    while i < entries.len()
        invariant
            i <= entries.len(),
            entries@.len() == json_members(*object).len(),
            forall|k: int|
                0 <= k < entries@.len() ==> (#[trigger] entries@[k]).0@ == json_members(
                    *object,
                )[k].0 && json_node(*entries@[k].1) == json_members(*object)[k].1,
            result@.len() == i,
            forall|k: int|
                0 <= k < i ==> (#[trigger] result@[k])@ == feature_of(json_members(*object)[k]),
        decreases entries.len() - i,
    {
        let key: &String = entries[i].0;
        let value: &serde_json::Value = entries[i].1;
        let subfeatures = match value.as_object() {
            Some(members) => Some(read_subfeatures(members)),
            None => None,
        };
        result.push(Feature { name: key.clone(), subfeatures });
        i += 1;
    }
    proof {
        assert(views(result@) =~= json_members(*object).map_values(
            |m: (Seq<char>, JsonNode)| feature_of(m),
        ));
    }
    result
}

/// Reads the chips of a sensor report out of its JSON text.
///
/// The text is handed to the JSON reader; the chips are the members of
/// the root object, the features the members of each chip, and the
/// subfeatures the members of each feature that is an object, each with
/// its value as text. The error is [`SensorError::MalformedInput`] exactly
/// where the text is not JSON, the root is no object, or a member of the
/// root is no object.
pub fn read_report(text: &str) -> (result: Result<Vec<Chip>, SensorError>)
    ensures
        match result {
            Ok(chips) => report_of(text@) == Some(views(chips@)) && distinct_chips(views(chips@)),
            Err(error) => error == SensorError::MalformedInput && report_of(text@) is None,
        },
{
    let root = match read_value(text) {
        Ok(root) => root,
        Err(_) => {
            return Err(SensorError::MalformedInput);
        },
    };
    let object = match root.as_object() {
        Some(object) => object,
        None => {
            return Err(SensorError::MalformedInput);
        },
    };
    let entries = map_entries(object);
    let mut result: Vec<Chip> = Vec::new();
    let mut i: usize = 0;
    while i < entries.len()
        invariant
            i <= entries.len(),
            entries@.len() == json_members(*object).len(),
            forall|k: int|
                0 <= k < entries@.len() ==> (#[trigger] entries@[k]).0@ == json_members(
                    *object,
                )[k].0 && json_node(*entries@[k].1) == json_members(*object)[k].1,
            forall|a: int, b: int|
                0 <= a < b < entries@.len() ==> (#[trigger] json_members(*object)[a]).0 != (
                #[trigger] json_members(*object)[b]).0,
            result@.len() == i,
            forall|k: int|
                0 <= k < i ==> (#[trigger] json_members(*object)[k]).1.members is Some,
            forall|k: int|
                0 <= k < i ==> (#[trigger] result@[k])@ == chip_of(json_members(*object)[k]),
            json_document(text@) == Some(json_node(root)),
            json_node(root).members == Some(json_members(*object)),
        decreases entries.len() - i,
    {
        let key: &String = entries[i].0;
        let value: &serde_json::Value = entries[i].1;
        match value.as_object() {
            Some(members) => {
                result.push(Chip { name: key.clone(), features: read_features(members) });
            },
            None => {
                proof {
                    assert(json_members(*object)[i as int].1.members is None);
                }
                return Err(SensorError::MalformedInput);
            },
        }
        i += 1;
    }
    proof {
        assert(views(result@) =~= chips_of(json_node(root)));
        assert forall|a: int, b: int| 0 <= a < b < result@.len() implies (#[trigger] views(
            result@,
        )[a]).name != (#[trigger] views(result@)[b]).name by {
            assert(json_members(*object)[a].0 != json_members(*object)[b].0);
        }
    }
    Ok(result)
}

/// Parses a sensor report into adapters.
///
/// Each chip of the report that has a temperature reading gives one
/// adapter, in report order, with the readings in the order of their
/// features. A reading is the value of a field whose key holds both
/// `temp` and `input`; it takes the name of its feature. A reading of
/// zero is left out, a value that is no decimal number reads as the
/// sentinel, and a chip without readings gives no adapter. No two
/// adapters have the same name.
pub fn parse_adapters(json_str: &str) -> (result: Result<Vec<Adapter>, SensorError>)
    ensures
        match result {
            Ok(adapters) => {
                &&& report_of(json_str@) matches Some(chips) && views(adapters@) == adapters_of(
                    chips,
                )
                &&& forall|i: int|
                    0 <= i < adapters@.len() ==> (#[trigger] adapters@[i])@.well_formed()
                &&& distinct_adapters(views(adapters@))
            },
            Err(error) => error == SensorError::MalformedInput && report_of(json_str@) is None,
        },
{
    match read_report(json_str) {
        Ok(chips) => {
            proof {
                lemma_adapter_names(views(chips@));
            }
            Ok(build_adapters(&chips))
        },
        Err(error) => Err(error),
    }
}

} // verus!
