//! The catalog's data model: the closed set of part categories with their
//! property shapes, the part records, and the registry that enumerates the
//! category tags and parses them back from their display strings.

use vstd::prelude::*;
use crate::decimal::decimal_text_ok;

verus! {

// --- rating text ---

/// A decimal number carried as text, so that it survives storage formats that
/// have no exact binary floating representation.
#[derive(Clone, Debug)]
pub struct StringenFloat(pub String);

impl StringenFloat {
    /// The text is syntactically a decimal number.
    pub open spec fn wf(self) -> bool {
        decimal_text_ok(self.0@)
    }

    /// Accepts the text only when it is decimal numeric text.
    pub fn from_text(text: String) -> (r: Option<StringenFloat>)
        ensures
            decimal_text_ok(text@) ==> r == Some(StringenFloat(text)),
            !decimal_text_ok(text@) ==> r is None,
            r is Some ==> r.unwrap().wf(),
    {
        if crate::decimal::is_decimal_text(text.as_str()) {
            Some(StringenFloat(text))
        } else {
            None
        }
    }

    /// The carried text.
    pub fn text(&self) -> (r: &String)
        ensures
            r == &self.0,
    {
        &self.0
    }
}

impl PartialEq for StringenFloat {
    fn eq(&self, other: &StringenFloat) -> (r: bool) {
        self.0 == other.0
    }
}

impl vstd::std_specs::cmp::PartialEqSpecImpl for StringenFloat {
    open spec fn obeys_eq_spec() -> bool {
        true
    }

    open spec fn eq_spec(&self, other: &StringenFloat) -> bool {
        self.0@ == other.0@
    }
}

impl Default for StringenFloat {
    /// The zero value: the text of zero.
    fn default() -> (r: StringenFloat)
        ensures
            r.0@ == "0"@,
            r.wf(),
    {
        proof {
            reveal_strlit("0");
            assert("0"@.len() == 1);
            assert(crate::text::is_digit("0"@[0]));
            assert(crate::decimal::spec_mantissa_ok("0"@));
        }
        StringenFloat(String::from_str("0"))
    }
}

// --- category property shapes ---

/// The extra properties a part carries when its category is CPU.
#[derive(Clone, Debug)]
pub struct CPUProperties {
    pub cores: u32,
    pub threads: u32,
    pub max_frequency: String,
    pub base_frequency: String,
    pub max_tdp: String,
    pub base_tdp: String,
    pub cache: String,
    pub max_ram_size: String,
    pub max_memory_channels: u32,
    pub ecc_memory_supported: bool,
    pub max_pcie_lanes: u32,
    pub max_supported_pcie_version: String,
    pub socket: String,
    pub max_temperature: String,
}

/// Field-for-field equality of two CPU property records.
pub open spec fn cpu_props_eq(a: CPUProperties, b: CPUProperties) -> bool {
    &&& a.cores == b.cores
    &&& a.threads == b.threads
    &&& a.max_frequency@ == b.max_frequency@
    &&& a.base_frequency@ == b.base_frequency@
    &&& a.max_tdp@ == b.max_tdp@
    &&& a.base_tdp@ == b.base_tdp@
    &&& a.cache@ == b.cache@
    &&& a.max_ram_size@ == b.max_ram_size@
    &&& a.max_memory_channels == b.max_memory_channels
    &&& a.ecc_memory_supported == b.ecc_memory_supported
    &&& a.max_pcie_lanes == b.max_pcie_lanes
    &&& a.max_supported_pcie_version@ == b.max_supported_pcie_version@
    &&& a.socket@ == b.socket@
    &&& a.max_temperature@ == b.max_temperature@
}

/// Every field holds its type's zero value.
pub open spec fn is_default_cpu_props(c: CPUProperties) -> bool {
    &&& c.cores == 0
    &&& c.threads == 0
    &&& c.max_frequency@ == Seq::<char>::empty()
    &&& c.base_frequency@ == Seq::<char>::empty()
    &&& c.max_tdp@ == Seq::<char>::empty()
    &&& c.base_tdp@ == Seq::<char>::empty()
    &&& c.cache@ == Seq::<char>::empty()
    &&& c.max_ram_size@ == Seq::<char>::empty()
    &&& c.max_memory_channels == 0
    &&& c.ecc_memory_supported == false
    &&& c.max_pcie_lanes == 0
    &&& c.max_supported_pcie_version@ == Seq::<char>::empty()
    &&& c.socket@ == Seq::<char>::empty()
    &&& c.max_temperature@ == Seq::<char>::empty()
}

impl PartialEq for CPUProperties {
    fn eq(&self, other: &CPUProperties) -> (r: bool) {
        self.cores == other.cores && self.threads == other.threads && self.max_frequency
            == other.max_frequency && self.base_frequency == other.base_frequency && self.max_tdp
            == other.max_tdp && self.base_tdp == other.base_tdp && self.cache == other.cache
            && self.max_ram_size == other.max_ram_size && self.max_memory_channels
            == other.max_memory_channels && self.ecc_memory_supported == other.ecc_memory_supported
            && self.max_pcie_lanes == other.max_pcie_lanes && self.max_supported_pcie_version
            == other.max_supported_pcie_version && self.socket == other.socket
            && self.max_temperature == other.max_temperature
    }
}

impl vstd::std_specs::cmp::PartialEqSpecImpl for CPUProperties {
    open spec fn obeys_eq_spec() -> bool {
        true
    }

    open spec fn eq_spec(&self, other: &CPUProperties) -> bool {
        cpu_props_eq(*self, *other)
    }
}

impl CPUProperties {
    /// A field-for-field copy.
    pub fn duplicate(&self) -> (r: CPUProperties)
        ensures
            r == *self,
    {
        CPUProperties {
            cores: self.cores,
            threads: self.threads,
            max_frequency: self.max_frequency.clone(),
            base_frequency: self.base_frequency.clone(),
            max_tdp: self.max_tdp.clone(),
            base_tdp: self.base_tdp.clone(),
            cache: self.cache.clone(),
            max_ram_size: self.max_ram_size.clone(),
            max_memory_channels: self.max_memory_channels,
            ecc_memory_supported: self.ecc_memory_supported,
            max_pcie_lanes: self.max_pcie_lanes,
            max_supported_pcie_version: self.max_supported_pcie_version.clone(),
            socket: self.socket.clone(),
            max_temperature: self.max_temperature.clone(),
        }
    }
}

impl Default for CPUProperties {
    /// The zero-valued CPU property record.
    fn default() -> (r: CPUProperties)
        ensures
            is_default_cpu_props(r),
    {
        CPUProperties {
            cores: 0,
            threads: 0,
            max_frequency: String::new(),
            base_frequency: String::new(),
            max_tdp: String::new(),
            base_tdp: String::new(),
            cache: String::new(),
            max_ram_size: String::new(),
            max_memory_channels: 0,
            ecc_memory_supported: false,
            max_pcie_lanes: 0,
            max_supported_pcie_version: String::new(),
            socket: String::new(),
            max_temperature: String::new(),
        }
    }
}

// --- the closed category set ---

/// The closed set of part categories; each tag carries the property shape of
/// its variant. Adding a category means adding a variant here, which every
/// exhaustive match then checks at compile time.
#[derive(Clone, Debug)]
pub enum PartsCategory {
    Basic,
    CPU(CPUProperties),
}

/// Equality of two categories: the same tag with equal properties.
pub open spec fn category_eq(a: PartsCategory, b: PartsCategory) -> bool {
    match (a, b) {
        (PartsCategory::Basic, PartsCategory::Basic) => true,
        (PartsCategory::CPU(x), PartsCategory::CPU(y)) => cpu_props_eq(x, y),
        _ => false,
    }
}

/// The category carries its tag's zero-valued property record.
pub open spec fn is_default_instance(c: PartsCategory) -> bool {
    match c {
        PartsCategory::Basic => true,
        PartsCategory::CPU(p) => is_default_cpu_props(p),
    }
}

impl PartialEq for PartsCategory {
    fn eq(&self, other: &PartsCategory) -> (r: bool) {
        match (self, other) {
            (PartsCategory::Basic, PartsCategory::Basic) => true,
            (PartsCategory::CPU(x), PartsCategory::CPU(y)) => x == y,
            _ => false,
        }
    }
}

impl vstd::std_specs::cmp::PartialEqSpecImpl for PartsCategory {
    open spec fn obeys_eq_spec() -> bool {
        true
    }

    open spec fn eq_spec(&self, other: &PartsCategory) -> bool {
        category_eq(*self, *other)
    }
}

impl Default for PartsCategory {
    /// The default category tag.
    fn default() -> (r: PartsCategory)
        ensures
            r == PartsCategory::Basic,
    {
        PartsCategory::Basic
    }
}

impl PartsCategory {
    /// The canonical display string of the category's tag.
    pub open spec fn spec_tag(self) -> Seq<char> {
        match self {
            PartsCategory::Basic => "Basic"@,
            PartsCategory::CPU(_) => "CPU"@,
        }
    }

    /// Renders the category's tag as its canonical display string.
    pub fn tag_string(&self) -> (r: String)
        ensures
            r@ == self.spec_tag(),
    {
        match self {
            PartsCategory::Basic => String::from_str("Basic"),
            PartsCategory::CPU(_) => String::from_str("CPU"),
        }
    }

    /// The same tag carrying its zero-valued property record.
    pub fn default_instance(&self) -> (r: PartsCategory)
        ensures
            r.spec_tag() == self.spec_tag(),
            is_default_instance(r),
    {
        match self {
            PartsCategory::Basic => PartsCategory::Basic,
            PartsCategory::CPU(_) => PartsCategory::CPU(CPUProperties::default()),
        }
    }

    /// A variant-for-variant copy.
    pub fn duplicate(&self) -> (r: PartsCategory)
        ensures
            r == *self,
    {
        match self {
            PartsCategory::Basic => PartsCategory::Basic,
            PartsCategory::CPU(p) => PartsCategory::CPU(p.duplicate()),
        }
    }

    /// Enumerates the tags of every registered category, in registry order.
    pub fn get_all_variats() -> (r: Vec<String>)
        ensures
            r@.len() == 2,
            r@[0]@ == "Basic"@,
            r@[1]@ == "CPU"@,
    {
        let mut variants: Vec<String> = Vec::new();
        variants.push(String::from_str("Basic"));
        variants.push(String::from_str("CPU"));
        variants
    }

    /// Parses a tag display string. An unknown string falls back to the
    /// default category, and the flag says whether the string was recognized,
    /// so a caller can surface the fallback instead of swallowing it.
    pub fn parse_tag(string: &str) -> (r: (PartsCategory, bool))
        ensures
            string@ == "Basic"@ ==> r.0 == PartsCategory::Basic && r.1,
            string@ == "CPU"@ ==> r.0 is CPU && is_default_instance(r.0) && r.1,
            string@ != "Basic"@ && string@ != "CPU"@ ==> r.0 == PartsCategory::Basic && !r.1,
    {
        proof {
            reveal_strlit("Basic");
            reveal_strlit("CPU");
            assert("Basic"@.len() == 5);
            assert("CPU"@.len() == 3);
            assert("Basic"@ != "CPU"@);
        }
        let o = string.to_owned();
        if o == String::from_str("Basic") {
            (PartsCategory::Basic, true)
        } else if o == String::from_str("CPU") {
            (PartsCategory::CPU(CPUProperties::default()), true)
        } else {
            (PartsCategory::Basic, false)
        }
    }

    /// Parses a tag display string, silently falling back to the default
    /// category on an unknown string.
    pub fn from_string(string: &str) -> (r: PartsCategory)
        ensures
            string@ == "Basic"@ ==> r == PartsCategory::Basic,
            string@ == "CPU"@ ==> r is CPU && is_default_instance(r),
            string@ != "Basic"@ && string@ != "CPU"@ ==> r == PartsCategory::Basic,
    {
        let (category, _recognized) = Self::parse_tag(string);
        category
    }
}

// --- part records ---

/// The base fields every part carries, plus the category-specific properties,
/// as the write interface takes them.
#[derive(Clone, Debug)]
pub struct DBPartProps {
    pub name: String,
    pub image_url: String,
    pub model: String,
    pub manufactuer: String,
    pub release_date: String,
    pub rating: StringenFloat,
    pub category: PartsCategory,
}

/// Field-for-field equality of two part property records.
pub open spec fn part_props_eq(a: DBPartProps, b: DBPartProps) -> bool {
    &&& a.name@ == b.name@
    &&& a.image_url@ == b.image_url@
    &&& a.model@ == b.model@
    &&& a.manufactuer@ == b.manufactuer@
    &&& a.release_date@ == b.release_date@
    &&& a.rating.0@ == b.rating.0@
    &&& category_eq(a.category, b.category)
}

impl PartialEq for DBPartProps {
    fn eq(&self, other: &DBPartProps) -> (r: bool) {
        self.name == other.name && self.image_url == other.image_url && self.model == other.model
            && self.manufactuer == other.manufactuer && self.release_date == other.release_date
            && self.rating == other.rating && self.category == other.category
    }
}

impl vstd::std_specs::cmp::PartialEqSpecImpl for DBPartProps {
    open spec fn obeys_eq_spec() -> bool {
        true
    }

    open spec fn eq_spec(&self, other: &DBPartProps) -> bool {
        part_props_eq(*self, *other)
    }
}

impl Default for DBPartProps {
    /// The zero-valued part record of the default category.
    fn default() -> (r: DBPartProps)
        ensures
            r.name@ == Seq::<char>::empty(),
            r.image_url@ == Seq::<char>::empty(),
            r.model@ == Seq::<char>::empty(),
            r.manufactuer@ == Seq::<char>::empty(),
            r.release_date@ == Seq::<char>::empty(),
            r.rating.0@ == "0"@,
            r.category == PartsCategory::Basic,
    {
        DBPartProps {
            name: String::new(),
            image_url: String::new(),
            model: String::new(),
            manufactuer: String::new(),
            release_date: String::new(),
            rating: StringenFloat::default(),
            category: PartsCategory::Basic,
        }
    }
}

/// A stored part: the property record together with its storage identifier.
#[derive(Clone, Debug)]
pub struct DBPart {
    pub id: String,
    pub name: String,
    pub image_url: String,
    pub model: String,
    pub manufactuer: String,
    pub release_date: String,
    pub rating: StringenFloat,
    pub category: PartsCategory,
}

impl DBPart {
    /// The property record of the stored part, without the identifier.
    pub fn to_props(&self) -> (r: DBPartProps)
        ensures
            r.name@ == self.name@,
            r.image_url@ == self.image_url@,
            r.model@ == self.model@,
            r.manufactuer@ == self.manufactuer@,
            r.release_date@ == self.release_date@,
            r.rating.0@ == self.rating.0@,
            r.category == self.category,
    {
        DBPartProps {
            name: self.name.clone(),
            image_url: self.image_url.clone(),
            model: self.model.clone(),
            manufactuer: self.manufactuer.clone(),
            release_date: self.release_date.clone(),
            rating: StringenFloat(self.rating.0.clone()),
            category: self.category.duplicate(),
        }
    }
}

impl PartialEq for DBPart {
    fn eq(&self, other: &DBPart) -> (r: bool) {
        self.id == other.id && self.name == other.name && self.image_url == other.image_url
            && self.model == other.model && self.manufactuer == other.manufactuer
            && self.release_date == other.release_date && self.rating == other.rating
            && self.category == other.category
    }
}

impl vstd::std_specs::cmp::PartialEqSpecImpl for DBPart {
    open spec fn obeys_eq_spec() -> bool {
        true
    }

    open spec fn eq_spec(&self, other: &DBPart) -> bool {
        &&& self.id@ == other.id@
        &&& self.name@ == other.name@
        &&& self.image_url@ == other.image_url@
        &&& self.model@ == other.model@
        &&& self.manufactuer@ == other.manufactuer@
        &&& self.release_date@ == other.release_date@
        &&& self.rating.0@ == other.rating.0@
        &&& category_eq(self.category, other.category)
    }
}

/// The reply of the status interface.
#[derive(Clone, Debug)]
pub struct StatusResponse {
    pub functional: bool,
}

/// A read request: one part by identifier, or all parts up to a limit.
#[derive(Clone, Debug)]
pub struct GetPartProps {
    /// None: get all parts. Some: get the part with the given identifier.
    pub id: Option<String>,
    pub limit: u32,
}

} // verus!
