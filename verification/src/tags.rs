//! Reading the tags of a way: lookup by key, the road type that a
//! `highway` value names, and the number that a `lanes` value holds.

use crate::kinds::{LocationCategory, WayType};
use vstd::prelude::*;
use vstd::string::StrSliceExecFns;

verus! {

/// One tag of a way.
#[derive(Debug, PartialEq, Eq)]
pub struct Tag {
    pub key: String,
    pub value: String,
}

/// The value of the first tag with the given key.
pub open spec fn tag_value(tags: Seq<Tag>, key: Seq<char>) -> Option<Seq<char>>
    decreases tags.len(),
{
    if tags.len() == 0 {
        None
    } else if tags[0].key@ == key {
        Some(tags[0].value@)
    } else {
        tag_value(tags.drop_first(), key)
    }
}

/// The value of the first tag with the given key.
pub fn find_tag<'a>(tags: &'a Vec<Tag>, key: &String) -> (r: Option<&'a String>)
    ensures
        match r {
            Some(v) => tag_value(tags@, key@) == Some(v@),
            None => tag_value(tags@, key@) is None,
        },
{
    let mut i: usize = 0;
    assert(tags@.skip(0) =~= tags@);
    while i < tags.len()
        invariant
            i <= tags.len(),
            tag_value(tags@, key@) == tag_value(tags@.skip(i as int), key@),
        decreases tags.len() - i,
    {
        assert(tags@.skip(i as int).drop_first() =~= tags@.skip(i + 1));
        if tags[i].key == *key {
            return Some(&tags[i].value);
        }
        i += 1;
    }
    None
}

/// How many road types there are.
pub const WAY_TYPES: usize = 24;

/// The road types in the order of their declaration.
pub open spec fn way_type_at(i: int) -> WayType {
    if i == 0 {
        WayType::Service
    } else if i == 1 {
        WayType::Cycleway
    } else if i == 2 {
        WayType::Path
    } else if i == 3 {
        WayType::Footway
    } else if i == 4 {
        WayType::Steps
    } else if i == 5 {
        WayType::Bridleway
    } else if i == 6 {
        WayType::MotorwayLink
    } else if i == 7 {
        WayType::PrimaryLink
    } else if i == 8 {
        WayType::TrunkLink
    } else if i == 9 {
        WayType::SecondaryLink
    } else if i == 10 {
        WayType::TertiaryLink
    } else if i == 11 {
        WayType::Residential
    } else if i == 12 {
        WayType::Track
    } else if i == 13 {
        WayType::Unclassified
    } else if i == 14 {
        WayType::Tertiary
    } else if i == 15 {
        WayType::Secondary
    } else if i == 16 {
        WayType::Primary
    } else if i == 17 {
        WayType::LivingStreet
    } else if i == 18 {
        WayType::Trunk
    } else if i == 19 {
        WayType::Motorway
    } else if i == 20 {
        WayType::Pedestrian
    } else if i == 21 {
        WayType::Road
    } else if i == 22 {
        WayType::Construction
    } else {
        WayType::Unknown
    }
}

/// The tag value that names a road type.
pub open spec fn way_type_name(t: WayType) -> Seq<char> {
    match t {
        WayType::Service => "service"@,
        WayType::Cycleway => "cycleway"@,
        WayType::Path => "path"@,
        WayType::Footway => "footway"@,
        WayType::Steps => "steps"@,
        WayType::Bridleway => "bridleway"@,
        WayType::MotorwayLink => "motorway_link"@,
        WayType::PrimaryLink => "primary_link"@,
        WayType::TrunkLink => "trunk_link"@,
        WayType::SecondaryLink => "secondary_link"@,
        WayType::TertiaryLink => "tertiary_link"@,
        WayType::Residential => "residential"@,
        WayType::Track => "track"@,
        WayType::Unclassified => "unclassified"@,
        WayType::Tertiary => "tertiary"@,
        WayType::Secondary => "secondary"@,
        WayType::Primary => "primary"@,
        WayType::LivingStreet => "living_street"@,
        WayType::Trunk => "trunk"@,
        WayType::Motorway => "motorway"@,
        WayType::Pedestrian => "pedestrian"@,
        WayType::Road => "road"@,
        WayType::Construction => "construction"@,
        WayType::Unknown => "unknown"@,
    }
}

/// The first road type from the `i`-th on whose name is `s`.
pub open spec fn parse_way_type_from(s: Seq<char>, i: int) -> Option<WayType>
    decreases WAY_TYPES - i,
{
    if i < 0 || i >= WAY_TYPES {
        None
    } else if way_type_name(way_type_at(i)) == s {
        Some(way_type_at(i))
    } else {
        parse_way_type_from(s, i + 1)
    }
}

/// The road type that a tag value names: the value is the type's name in
/// lower case with underscores, letter for letter.
pub open spec fn parse_way_type(s: Seq<char>) -> Option<WayType> {
    parse_way_type_from(s, 0)
}

impl WayType {
    /// The `i`-th road type in the order of declaration; past the last
    /// one, the unknown type.
    pub fn at(i: usize) -> (t: WayType)
        ensures
            t == way_type_at(i as int),
    {
        if i == 0 {
            WayType::Service
        } else if i == 1 {
            WayType::Cycleway
        } else if i == 2 {
            WayType::Path
        } else if i == 3 {
            WayType::Footway
        } else if i == 4 {
            WayType::Steps
        } else if i == 5 {
            WayType::Bridleway
        } else if i == 6 {
            WayType::MotorwayLink
        } else if i == 7 {
            WayType::PrimaryLink
        } else if i == 8 {
            WayType::TrunkLink
        } else if i == 9 {
            WayType::SecondaryLink
        } else if i == 10 {
            WayType::TertiaryLink
        } else if i == 11 {
            WayType::Residential
        } else if i == 12 {
            WayType::Track
        } else if i == 13 {
            WayType::Unclassified
        } else if i == 14 {
            WayType::Tertiary
        } else if i == 15 {
            WayType::Secondary
        } else if i == 16 {
            WayType::Primary
        } else if i == 17 {
            WayType::LivingStreet
        } else if i == 18 {
            WayType::Trunk
        } else if i == 19 {
            WayType::Motorway
        } else if i == 20 {
            WayType::Pedestrian
        } else if i == 21 {
            WayType::Road
        } else if i == 22 {
            WayType::Construction
        } else {
            WayType::Unknown
        }
    }

    /// The position of this road type in the order of declaration.
    pub fn index(&self) -> (i: usize)
        ensures
            i == way_type_index(*self),
            i < WAY_TYPES,
            way_type_at(i as int) == *self,
    {
        match self {
            WayType::Service => 0,
            WayType::Cycleway => 1,
            WayType::Path => 2,
            WayType::Footway => 3,
            WayType::Steps => 4,
            WayType::Bridleway => 5,
            WayType::MotorwayLink => 6,
            WayType::PrimaryLink => 7,
            WayType::TrunkLink => 8,
            WayType::SecondaryLink => 9,
            WayType::TertiaryLink => 10,
            WayType::Residential => 11,
            WayType::Track => 12,
            WayType::Unclassified => 13,
            WayType::Tertiary => 14,
            WayType::Secondary => 15,
            WayType::Primary => 16,
            WayType::LivingStreet => 17,
            WayType::Trunk => 18,
            WayType::Motorway => 19,
            WayType::Pedestrian => 20,
            WayType::Road => 21,
            WayType::Construction => 22,
            WayType::Unknown => 23,
        }
    }

    /// The tag value that names this road type.
    pub fn name(&self) -> (s: String)
        ensures
            s@ == way_type_name(*self),
    {
        match self {
            WayType::Service => "service".to_owned(),
            WayType::Cycleway => "cycleway".to_owned(),
            WayType::Path => "path".to_owned(),
            WayType::Footway => "footway".to_owned(),
            WayType::Steps => "steps".to_owned(),
            WayType::Bridleway => "bridleway".to_owned(),
            WayType::MotorwayLink => "motorway_link".to_owned(),
            WayType::PrimaryLink => "primary_link".to_owned(),
            WayType::TrunkLink => "trunk_link".to_owned(),
            WayType::SecondaryLink => "secondary_link".to_owned(),
            WayType::TertiaryLink => "tertiary_link".to_owned(),
            WayType::Residential => "residential".to_owned(),
            WayType::Track => "track".to_owned(),
            WayType::Unclassified => "unclassified".to_owned(),
            WayType::Tertiary => "tertiary".to_owned(),
            WayType::Secondary => "secondary".to_owned(),
            WayType::Primary => "primary".to_owned(),
            WayType::LivingStreet => "living_street".to_owned(),
            WayType::Trunk => "trunk".to_owned(),
            WayType::Motorway => "motorway".to_owned(),
            WayType::Pedestrian => "pedestrian".to_owned(),
            WayType::Road => "road".to_owned(),
            WayType::Construction => "construction".to_owned(),
            WayType::Unknown => "unknown".to_owned(),
        }
    }
}

/// Category and road type that the tags of a way give: both come from
/// the `highway` tag, and a value that names no road type gives the
/// unknown type.
pub open spec fn classify_tags(tags: Seq<Tag>) -> (LocationCategory, WayType) {
    match tag_value(tags, "highway"@) {
        Some(v) => (
            LocationCategory::Highway,
            match parse_way_type(v) {
                Some(t) => t,
                None => WayType::Unknown,
            },
        ),
        None => (LocationCategory::Unknown, WayType::Unknown),
    }
}

/// The `highway` value of the tags, where it names no road type.
pub open spec fn unrecognised_value(tags: Seq<Tag>) -> Option<Seq<char>> {
    match tag_value(tags, "highway"@) {
        Some(v) => if parse_way_type(v) is None {
            Some(v)
        } else {
            None
        },
        None => None,
    }
}

/// The texts of a sequence of strings.
pub open spec fn texts(strings: Seq<String>) -> Seq<Seq<char>> {
    strings.map_values(|s: String| s@)
}

/// What the classifier says of one way.
#[derive(Debug, PartialEq, Eq)]
pub struct Classification {
    pub category: LocationCategory,
    pub way_type: WayType,
    /// The `highway` value, where it names no road type and is seen for
    /// the first time: the one occasion to report it.
    pub warning: Option<String>,
}

/// The tag classifier of one build. It remembers the unrecognised
/// `highway` values it has met, so that each is reported once.
pub struct TagClassifier {
    highway: String,
    names: Vec<String>,
    warned: Vec<String>,
}

impl TagClassifier {
    /// The unrecognised values met so far, in the order they were met.
    pub closed spec fn warned(&self) -> Seq<Seq<char>> {
        texts(self.warned@)
    }

    /// The invariant of the classifier: its tables are in place.
    pub closed spec fn wf(&self) -> bool {
        &&& self.highway@ == "highway"@
        &&& self.names@.len() == WAY_TYPES
        &&& forall|i: int|
            0 <= i < WAY_TYPES ==> (#[trigger] self.names@[i])@ == way_type_name(way_type_at(i))
        &&& no_repeats(self.warned())
    }

    /// No value is among the values met more than once.
    pub proof fn lemma_warned_distinct(&self)
        requires
            self.wf(),
        ensures
            no_repeats(self.warned()),
    {
    }

    /// A classifier that has met no value yet.
    pub fn new() -> (c: TagClassifier)
        ensures
            c.wf(),
            c.warned() == Seq::<Seq<char>>::empty(),
    {
        let mut names: Vec<String> = Vec::new();
        let mut i: usize = 0;
        while i < WAY_TYPES
            invariant
                i <= WAY_TYPES,
                names@.len() == i,
                forall|j: int|
                    0 <= j < i ==> (#[trigger] names@[j])@ == way_type_name(way_type_at(j)),
            decreases WAY_TYPES - i,
        {
            names.push(WayType::at(i).name());
            i += 1;
        }
        let c = TagClassifier { highway: "highway".to_owned(), names, warned: Vec::new() };
        c
    }

    /// The road type that a tag value names.
    pub fn parse(&self, value: &String) -> (r: Option<WayType>)
        requires
            self.wf(),
        ensures
            r == parse_way_type(value@),
    {
        let mut i: usize = 0;
        while i < WAY_TYPES
            invariant
                i <= WAY_TYPES,
                self.wf(),
                parse_way_type(value@) == parse_way_type_from(value@, i as int),
            decreases WAY_TYPES - i,
        {
            if self.names[i] == *value {
                return Some(WayType::at(i));
            }
            i += 1;
        }
        None
    }

    /// Whether the value has been met before.
    fn has_warned(&self, value: &String) -> (b: bool)
        ensures
            b == self.warned().contains(value@),
    {
        let mut i: usize = 0;
        while i < self.warned.len()
            invariant
                i <= self.warned.len(),
                forall|j: int| 0 <= j < i ==> self.warned()[j] != value@,
            decreases self.warned.len() - i,
        {
            if self.warned[i] == *value {
                assert(self.warned()[i as int] == value@);
                return true;
            }
            i += 1;
        }
        false
    }

    /// Classifies a way by its tags, and says whether an unrecognised
    /// `highway` value is to be reported.
    pub fn classify(&mut self, tags: &Vec<Tag>) -> (r: Classification)
        requires
            old(self).wf(),
        ensures
            final(self).wf(),
            (r.category, r.way_type) == classify_tags(tags@),
            match unrecognised_value(tags@) {
                Some(v) => if old(self).warned().contains(v) {
                    r.warning is None && final(self).warned() == old(self).warned()
                } else {
                    text_is(r.warning, v) && final(self).warned() == old(self).warned().push(v)
                },
                None => r.warning is None && final(self).warned() == old(self).warned(),
            },
    {
        match find_tag(tags, &self.highway) {
            Some(value) => match self.parse(value) {
                Some(t) => Classification {
                    category: LocationCategory::Highway,
                    way_type: t,
                    warning: None,
                },
                None => {
                    let warning = if self.has_warned(value) {
                        None
                    } else {
                        self.warned.push(value.clone());
                        assert(self.warned() =~= old(self).warned().push(value@));
                        proof {
                            lemma_warned_once(old(self).warned(), value@);
                        }
                        Some(value.clone())
                    };
                    Classification {
                        category: LocationCategory::Highway,
                        way_type: WayType::Unknown,
                        warning,
                    }
                },
            },
            None => Classification {
                category: LocationCategory::Unknown,
                way_type: WayType::Unknown,
                warning: None,
            },
        }
    }
}

/// The optional string holds the text `v`.
pub open spec fn text_is(s: Option<String>, v: Seq<char>) -> bool {
    match s {
        Some(t) => t@ == v,
        None => false,
    }
}

/// No text occurs twice.
pub open spec fn no_repeats(s: Seq<Seq<char>>) -> bool {
    forall|i: int, j: int| 0 <= i < j < s.len() ==> s[i] != s[j]
}

/// A text that is not among different texts can join them.
pub proof fn lemma_warned_once(before: Seq<Seq<char>>, v: Seq<char>)
    requires
        no_repeats(before),
        !before.contains(v),
    ensures
        no_repeats(before.push(v)),
{
}

/// The character is a decimal digit.
pub open spec fn is_digit(c: char) -> bool {
    '0' <= c <= '9'
}

/// Every character is a decimal digit.
pub open spec fn all_digits(s: Seq<char>) -> bool {
    forall|i: int| 0 <= i < s.len() ==> is_digit(#[trigger] s[i])
}

/// The number that a sequence of decimal digits writes.
pub open spec fn digits_value(s: Seq<char>) -> int
    decreases s.len(),
{
    if s.len() == 0 {
        0
    } else {
        digits_value(s.drop_last()) * 10 + (s.last() as int - '0' as int)
    }
}

/// The text without its plus sign, where it starts with one.
pub open spec fn unsigned_part(s: Seq<char>) -> Seq<char> {
    if s.len() > 0 && s[0] == '+' {
        s.drop_first()
    } else {
        s
    }
}

/// The number below 256 that a text writes in decimal digits, after an
/// optional plus sign.
pub open spec fn parse_u8(s: Seq<char>) -> Option<u8> {
    let digits = unsigned_part(s);
    if digits.len() > 0 && all_digits(digits) && digits_value(digits) <= 255 {
        Some(digits_value(digits) as u8)
    } else {
        None
    }
}

/// A number in digits is no less than the number that its first digits
/// write.
pub proof fn lemma_prefix_value(s: Seq<char>, i: int)
    requires
        all_digits(s),
        0 <= i <= s.len(),
    ensures
        0 <= digits_value(s.take(i)) <= digits_value(s),
    decreases s.len(),
{
    if s.len() == 0 {
    } else if i == s.len() {
        assert(s.take(i) =~= s);
        lemma_prefix_value(s.drop_last(), i - 1);
    } else {
        assert(s.drop_last().take(i) =~= s.take(i));
        lemma_prefix_value(s.drop_last(), i);
    }
}

/// The number of lanes that a `lanes` value holds.
pub fn parse_lanes(value: &String) -> (r: Option<u8>)
    ensures
        r == parse_u8(value@),
{
    let s = value.as_str();
    let n = s.unicode_len();
    let start: usize = if n > 0 && s.get_char(0) == '+' {
        1
    } else {
        0
    };
    let ghost digits = unsigned_part(value@);
    if start == n {
        return None;
    }
    let mut acc: u32 = 0;
    let mut i: usize = start;
    while i < n
        invariant
            start <= i <= n,
            n == value@.len(),
            s@ == value@,
            digits == value@.skip(start as int),
            digits == unsigned_part(value@),
            acc == digits_value(digits.take(i - start)),
            acc <= 255,
            all_digits(digits.take(i - start)),
        decreases n - i,
    {
        let c = s.get_char(i);
        let ghost prefix = digits.take(i - start);
        let ghost next = digits.take(i - start + 1);
        assert(next.drop_last() =~= prefix);
        if !(c >= '0' && c <= '9') {
            assert(!is_digit(digits[i - start]));
            return None;
        }
        let d: u32 = c as u32 - '0' as u32;
        acc = acc * 10 + d;
        if acc > 255 {
            proof {
                if all_digits(digits) {
                    lemma_prefix_value(digits, i - start + 1);
                }
            }
            return None;
        }
        i += 1;
    }
    assert(digits.take(i - start) =~= digits);
    Some(acc as u8)
}

/// The position of a road type in the order of declaration.
pub open spec fn way_type_index(t: WayType) -> int {
    match t {
        WayType::Service => 0,
        WayType::Cycleway => 1,
        WayType::Path => 2,
        WayType::Footway => 3,
        WayType::Steps => 4,
        WayType::Bridleway => 5,
        WayType::MotorwayLink => 6,
        WayType::PrimaryLink => 7,
        WayType::TrunkLink => 8,
        WayType::SecondaryLink => 9,
        WayType::TertiaryLink => 10,
        WayType::Residential => 11,
        WayType::Track => 12,
        WayType::Unclassified => 13,
        WayType::Tertiary => 14,
        WayType::Secondary => 15,
        WayType::Primary => 16,
        WayType::LivingStreet => 17,
        WayType::Trunk => 18,
        WayType::Motorway => 19,
        WayType::Pedestrian => 20,
        WayType::Road => 21,
        WayType::Construction => 22,
        WayType::Unknown => 23,
    }
}

/// Two road types with the same name are the same.
pub proof fn lemma_names_differ(a: WayType, b: WayType)
    requires
        way_type_name(a) == way_type_name(b),
    ensures
        a == b,
{
    reveal_strlit("service");
    reveal_strlit("cycleway");
    reveal_strlit("path");
    reveal_strlit("footway");
    reveal_strlit("steps");
    reveal_strlit("bridleway");
    reveal_strlit("motorway_link");
    reveal_strlit("primary_link");
    reveal_strlit("trunk_link");
    reveal_strlit("secondary_link");
    reveal_strlit("tertiary_link");
    reveal_strlit("residential");
    reveal_strlit("track");
    reveal_strlit("unclassified");
    reveal_strlit("tertiary");
    reveal_strlit("secondary");
    reveal_strlit("primary");
    reveal_strlit("living_street");
    reveal_strlit("trunk");
    reveal_strlit("motorway");
    reveal_strlit("pedestrian");
    reveal_strlit("road");
    reveal_strlit("construction");
    reveal_strlit("unknown");
    let x = way_type_name(a);
    let y = way_type_name(b);
    assert(x.len() == y.len());
    assert(x[0] == y[0] && x[1] == y[1] && x[2] == y[2] && x[3] == y[3]);
}

/// A tag value names the road type whose name it is: every name parses
/// back to its road type, and a value that parses is that type's name.
pub proof fn lemma_name_parses(t: WayType, s: Seq<char>)
    ensures
        parse_way_type(way_type_name(t)) == Some(t),
        parse_way_type(s) == Some(t) <==> s == way_type_name(t),
{
    let name = way_type_name(t);
    lemma_parse_from(name, 0);
    lemma_parse_from(s, 0);
    match parse_way_type_from(name, 0) {
        Some(u) => {
            lemma_names_differ(u, t);
        },
        None => {
            assert(way_type_name(way_type_at(way_type_index(t))) != name);
        },
    }
}

/// Parsing from the `i`-th road type on finds the first type from there
/// on whose name is `s`.
proof fn lemma_parse_from(s: Seq<char>, i: int)
    requires
        0 <= i <= WAY_TYPES,
    ensures
        match parse_way_type_from(s, i) {
            Some(t) => way_type_name(t) == s && i <= way_type_index(t),
            None => forall|j: int| i <= j < WAY_TYPES ==> way_type_name(#[trigger] way_type_at(j))
                != s,
        },
    decreases WAY_TYPES - i,
{
    if i < WAY_TYPES {
        lemma_parse_from(s, i + 1);
    }
}

} // verus!
