//! Feature descriptions and the text format they are configured in.
//!
//! All data is described as features: what is fed to a model and what it was
//! computed from share one storage structure. A feature config is a text with
//! one feature per line, its attributes separated by commas, and `#` starting
//! a comment:
//!
//! ```text
//! # the user
//! feature_name = user_id, data_type = U64
//! feature_name = item_id, data_type = U64
//! ```
use crate::error::DropletError;
use crate::text::chars_are;
use crate::text::chars_string;
use crate::text::split;
use crate::text::split_chars;
use crate::text::str_chars;
use crate::text::trim;
use crate::text::trimmed;
use vstd::prelude::*;

verus! {

/// The type of a feature's values.
#[derive(Clone, Copy, Debug, PartialEq, Eq, Structural)]
pub enum DataType {
    /// `u64`
    U64,
    /// `f32`
    F32,
    /// `u64` list
    U64List,
    /// `f32` list
    F32List,
}

impl Default for DataType {
    fn default() -> (t: Self)
        ensures
            t == DataType::U64,
    {
        DataType::U64
    }
}

impl DataType {
    /// The number of data types.
    pub const COUNT: usize = 4;

    /// The data type called `name`.
    pub open spec fn of_name(name: Seq<char>) -> Option<DataType> {
        if name == "U64"@ {
            Some(DataType::U64)
        } else if name == "F32"@ {
            Some(DataType::F32)
        } else if name == "U64List"@ {
            Some(DataType::U64List)
        } else if name == "F32List"@ {
            Some(DataType::F32List)
        } else {
            None
        }
    }

    /// The number that stands for the data type in storage.
    pub open spec fn code(self) -> u8 {
        match self {
            DataType::U64 => 0,
            DataType::F32 => 1,
            DataType::U64List => 2,
            DataType::F32List => 3,
        }
    }

    fn from_chars(name: &Vec<char>) -> (t: Option<DataType>)
        ensures
            t == Self::of_name(name@),
    {
        if chars_are(name, "U64") {
            Some(DataType::U64)
        } else if chars_are(name, "F32") {
            Some(DataType::F32)
        } else if chars_are(name, "U64List") {
            Some(DataType::U64List)
        } else if chars_are(name, "F32List") {
            Some(DataType::F32List)
        } else {
            None
        }
    }

    /// The data type called `name`: one of `U64`, `F32`, `U64List`,
    /// `F32List`, spelled exactly so.
    pub fn from_str(name: &str) -> (res: Result<DataType, DropletError>)
        ensures
            res == match Self::of_name(name@) {
                Some(t) => Ok::<DataType, DropletError>(t),
                None => Err::<DataType, DropletError>(DropletError::InvalidArgument),
            },
    {
        let chars = str_chars(name);
        match Self::from_chars(&chars) {
            Some(t) => Ok(t),
            None => Err(DropletError::InvalidArgument),
        }
    }

    /// The data type's name.
    pub fn name(&self) -> (name: &'static str)
        ensures
            name@ == match *self {
                DataType::U64 => "U64"@,
                DataType::F32 => "F32"@,
                DataType::U64List => "U64List"@,
                DataType::F32List => "F32List"@,
            },
    {
        match self {
            DataType::U64 => "U64",
            DataType::F32 => "F32",
            DataType::U64List => "U64List",
            DataType::F32List => "F32List",
        }
    }

    /// The number that stands for the data type in storage.
    pub fn repr(&self) -> (code: u8)
        ensures
            code == self.code(),
    {
        match self {
            DataType::U64 => 0,
            DataType::F32 => 1,
            DataType::U64List => 2,
            DataType::F32List => 3,
        }
    }

    /// The data type that `code` stands for.
    pub fn from_repr(code: u8) -> (t: Option<DataType>)
        ensures
            match t {
                Some(t) => t.code() == code,
                None => code >= 4,
            },
    {
        if code == 0 {
            Some(DataType::U64)
        } else if code == 1 {
            Some(DataType::F32)
        } else if code == 2 {
            Some(DataType::U64List)
        } else if code == 3 {
            Some(DataType::F32List)
        } else {
            None
        }
    }
}

/// A feature description as a mathematical value.
pub struct FeatureInfoView {
    pub feature_name: Seq<char>,
    pub data_type: DataType,
}

impl FeatureInfoView {
    /// The description that parsing starts from: no name, type `U64`.
    pub open spec fn initial() -> FeatureInfoView {
        FeatureInfoView { feature_name: Seq::empty(), data_type: DataType::U64 }
    }

    /// The description after the attribute `part` was read, or `None` where
    /// `part` is not of the form `key = value` or names no data type.
    /// Attributes other than `feature_name` and `data_type` are passed over.
    pub open spec fn with_part(self, part: Seq<char>) -> Option<FeatureInfoView> {
        let kv = split(trimmed(part), '=');
        if kv.len() != 2 {
            None
        } else if trimmed(kv[0]) == "feature_name"@ {
            Some(FeatureInfoView { feature_name: trimmed(kv[1]), ..self })
        } else if trimmed(kv[0]) == "data_type"@ {
            match DataType::of_name(trimmed(kv[1])) {
                Some(data_type) => Some(FeatureInfoView { data_type, ..self }),
                None => None,
            }
        } else {
            Some(self)
        }
    }

    /// The description after all of `parts` were read in turn.
    pub open spec fn of_parts(parts: Seq<Seq<char>>) -> Option<FeatureInfoView>
        decreases parts.len(),
    {
        if parts.len() == 0 {
            Some(FeatureInfoView::initial())
        } else {
            match FeatureInfoView::of_parts(parts.drop_last()) {
                Some(info) => info.with_part(parts.last()),
                None => None,
            }
        }
    }

    /// What the line `s` describes. An empty line and a line that starts with
    /// `#` describe nothing.
    pub open spec fn parse(s: Seq<char>) -> Option<FeatureInfoView> {
        if s.len() == 0 || s[0] == '#' {
            None
        } else {
            FeatureInfoView::of_parts(split(s, ','))
        }
    }
}

/// Whether a line of a config is blank or a comment.
pub open spec fn is_skipped_line(line: Seq<char>) -> bool {
    trimmed(line).len() == 0 || trimmed(line)[0] == '#'
}

/// The features that the lines of a config describe: blank lines, comments
/// and lines that cannot be read are passed over.
pub open spec fn config_features(lines: Seq<Seq<char>>) -> Seq<FeatureInfoView>
    decreases lines.len(),
{
    if lines.len() == 0 {
        Seq::empty()
    } else {
        let before = config_features(lines.drop_last());
        if is_skipped_line(lines.last()) {
            before
        } else {
            match FeatureInfoView::parse(lines.last()) {
                Some(info) => before.push(info),
                None => before,
            }
        }
    }
}

/// The core information of a feature.
#[derive(Clone)]
pub struct FeatureInfo {
    /// Feature name.
    pub feature_name: String,
    /// Data type.
    pub data_type: DataType,
}

impl View for FeatureInfo {
    type V = FeatureInfoView;

    open spec fn view(&self) -> FeatureInfoView {
        FeatureInfoView { feature_name: self.feature_name@, data_type: self.data_type }
    }
}

impl Default for FeatureInfo {
    fn default() -> (info: Self)
        ensures
            info@ == FeatureInfoView::initial(),
    {
        FeatureInfo { feature_name: String::new(), data_type: DataType::U64 }
    }
}

impl FeatureInfo {
    /// Create a new `FeatureInfo`.
    pub fn new(feature_name: &str, data_type: DataType) -> (info: Self)
        ensures
            info@ == (FeatureInfoView { feature_name: feature_name@, data_type }),
    {
        Self { feature_name: feature_name.to_owned(), data_type }
    }

    fn apply_part(self, part: &Vec<char>) -> (res: Option<FeatureInfo>)
        ensures
            match res {
                Some(info) => self@.with_part(part@) == Some(info@),
                None => self@.with_part(part@) is None,
            },
    {
        let trimmed_part = trim(part);
        let kv = split_chars(&trimmed_part, '=');
        if kv.len() != 2 {
            return None;
        }
        let key = trim(&kv[0]);
        let value = trim(&kv[1]);
        if chars_are(&key, "feature_name") {
            Some(FeatureInfo { feature_name: chars_string(&value), data_type: self.data_type })
        } else if chars_are(&key, "data_type") {
            match DataType::from_chars(&value) {
                Some(data_type) => Some(
                    FeatureInfo { feature_name: self.feature_name, data_type },
                ),
                None => None,
            }
        } else {
            Some(self)
        }
    }

    fn from_chars(s: &Vec<char>) -> (res: Option<FeatureInfo>)
        ensures
            match res {
                Some(info) => FeatureInfoView::parse(s@) == Some(info@),
                None => FeatureInfoView::parse(s@) is None,
            },
    {
        if s.len() == 0 || s[0] == '#' {
            return None;
        }
        let parts = split_chars(s, ',');
        let ghost all = split(s@, ',');
        let mut info = FeatureInfo::default();
        let mut i: usize = 0;
        assert(all.take(0) =~= Seq::<Seq<char>>::empty());
        while i < parts.len()
            invariant
                i <= parts.len(),
                parts@.len() == all.len(),
                forall|k: int| 0 <= k < parts@.len() ==> (#[trigger] parts@[k])@ == all[k],
                s@.len() > 0,
                s@[0] != '#',
                all == split(s@, ','),
                FeatureInfoView::of_parts(all.take(i as int)) == Some(info@),
            decreases parts.len() - i,
        {
            proof {
                let next = all.take(i as int + 1);
                assert(next.drop_last() =~= all.take(i as int));
                assert(next.last() == parts@[i as int]@);
            }
            match info.apply_part(&parts[i]) {
                Some(next) => {
                    info = next;
                },
                None => {
                    proof {
                        lemma_of_parts_fails(all, i as int + 1);
                    }
                    return None;
                },
            }
            i += 1;
        }
        assert(all.take(all.len() as int) =~= all);
        Some(info)
    }

    /// Reads a feature from a line such as
    /// `feature_name = ExtractSparse0, data_type = U64`.
    ///
    /// Empty lines, comments, attributes that are not of the form
    /// `key = value` and unknown data types are refused.
    pub fn from_str(s: &str) -> (res: Result<Self, DropletError>)
        ensures
            match res {
                Ok(info) => FeatureInfoView::parse(s@) == Some(info@),
                Err(e) => e == DropletError::InvalidArgument && FeatureInfoView::parse(s@)
                    is None,
            },
    {
        let chars = str_chars(s);
        match FeatureInfo::from_chars(&chars) {
            Some(info) => Ok(info),
            None => Err(DropletError::InvalidArgument),
        }
    }

    /// Whether the feature may be stored where `stored` is the code of the
    /// data type that storage holds under the feature's name: a feature that
    /// is stored keeps its data type.
    pub fn agrees_with_stored(&self, stored: Option<u32>) -> (ok: bool)
        ensures
            ok == match stored {
                Some(code) => code == self@.data_type.code(),
                None => true,
            },
    {
        match stored {
            Some(code) => code == self.data_type.repr() as u32,
            None => true,
        }
    }
}

/// Once an attribute cannot be read, the line cannot be read.
proof fn lemma_of_parts_fails(parts: Seq<Seq<char>>, n: int)
    requires
        0 <= n <= parts.len(),
        FeatureInfoView::of_parts(parts.take(n)) is None,
    ensures
        FeatureInfoView::of_parts(parts) is None,
    decreases parts.len() - n,
{
    if n < parts.len() {
        let next = parts.take(n + 1);
        assert(next.drop_last() =~= parts.take(n));
        lemma_of_parts_fails(parts, n + 1);
    } else {
        assert(parts.take(n) =~= parts);
    }
}

/// The features of a config, as values.
pub open spec fn infos_view(infos: Seq<FeatureInfo>) -> Seq<FeatureInfoView> {
    Seq::new(infos.len(), |i: int| infos[i]@)
}

/// Feature config in text file format: one feature per line.
pub struct FeatureConfig {
    /// All the feature infos.
    feature_infos: Vec<FeatureInfo>,
}

impl View for FeatureConfig {
    type V = Seq<FeatureInfoView>;

    closed spec fn view(&self) -> Seq<FeatureInfoView> {
        infos_view(self.feature_infos@)
    }
}

impl FeatureConfig {
    /// Create a new `FeatureConfig`.
    pub fn new(feature_infos: Vec<FeatureInfo>) -> (config: Self)
        ensures
            config@ == infos_view(feature_infos@),
    {
        Self { feature_infos }
    }

    /// The features, in the order of their lines.
    pub fn feature_infos(&self) -> (infos: &Vec<FeatureInfo>)
        ensures
            infos_view(infos@) == self@,
    {
        &self.feature_infos
    }

    /// Reads a config: each line that is neither blank nor a comment and that
    /// describes a feature gives one feature. Lines that cannot be read are
    /// passed over, so every text is a config.
    pub fn from_config_str(content: &str) -> (res: Result<Self, DropletError>)
        ensures
            res is Ok,
            res.unwrap()@ == config_features(split(content@, '\n')),
    {
        let chars = str_chars(content);
        let lines = split_chars(&chars, '\n');
        let ghost all = split(content@, '\n');
        let mut feature_infos: Vec<FeatureInfo> = Vec::new();
        let mut i: usize = 0;
        assert(all.take(0) =~= Seq::<Seq<char>>::empty());
        while i < lines.len()
            invariant
                i <= lines.len(),
                lines@.len() == all.len(),
                forall|k: int| 0 <= k < lines@.len() ==> (#[trigger] lines@[k])@ == all[k],
                infos_view(feature_infos@) == config_features(all.take(i as int)),
            decreases lines.len() - i,
        {
            proof {
                let next = all.take(i as int + 1);
                assert(next.drop_last() =~= all.take(i as int));
                assert(next.last() == lines@[i as int]@);
            }
            let ghost before = infos_view(feature_infos@);
            let line = trim(&lines[i]);
            if line.len() > 0 && line[0] != '#' {
                match FeatureInfo::from_chars(&lines[i]) {
                    Some(info) => {
                        let ghost value = info@;
                        feature_infos.push(info);
                        assert(infos_view(feature_infos@) =~= before.push(value));
                    },
                    None => {},
                }
            }
            i += 1;
        }
        assert(all.take(all.len() as int) =~= all);
        Ok(Self::new(feature_infos))
    }
}

} // verus!
