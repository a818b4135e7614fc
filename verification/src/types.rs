//! Core data model: scan speeds, risk levels, categories, findings, and the
//! configuration and result types of one scan invocation.

use vstd::prelude::*;

verus! {

/// How deep and wide a scan sweeps.
#[derive(Clone, Copy, Debug, PartialEq, Eq, Structural)]
pub enum ScanSpeed {
    Quick,
    Normal,
    Thorough,
}

impl ScanSpeed {
    pub open spec fn spec_label(self) -> Seq<char> {
        match self {
            ScanSpeed::Quick => "quick"@,
            ScanSpeed::Normal => "normal"@,
            ScanSpeed::Thorough => "thorough"@,
        }
    }

    /// Lower-case name of the speed tier, for display.
    pub fn label(&self) -> (r: String)
        ensures
            r@ == self.spec_label(),
    {
        match self {
            ScanSpeed::Quick => "quick".to_owned(),
            ScanSpeed::Normal => "normal".to_owned(),
            ScanSpeed::Thorough => "thorough".to_owned(),
        }
    }
}

/// Totally ordered deletion-risk scale: Safe < Moderate < Risky.
#[derive(Clone, Copy, Debug, PartialEq, Eq, PartialOrd, Ord, Hash, Structural)]
pub enum RiskLevel {
    Safe,
    Moderate,
    Risky,
}

impl RiskLevel {
    /// Position in the total order Safe < Moderate < Risky.
    pub open spec fn rank(self) -> int {
        match self {
            RiskLevel::Safe => 0,
            RiskLevel::Moderate => 1,
            RiskLevel::Risky => 2,
        }
    }

    /// Decides `self <= other` in the risk order.
    pub fn le(&self, other: &RiskLevel) -> (r: bool)
        ensures
            r == (self.rank() <= other.rank()),
    {
        match (self, other) {
            (RiskLevel::Safe, _) => true,
            (RiskLevel::Moderate, RiskLevel::Safe) => false,
            (RiskLevel::Moderate, _) => true,
            (RiskLevel::Risky, RiskLevel::Risky) => true,
            (RiskLevel::Risky, _) => false,
        }
    }

    pub open spec fn spec_label(self) -> Seq<char> {
        match self {
            RiskLevel::Safe => "safe"@,
            RiskLevel::Moderate => "moderate"@,
            RiskLevel::Risky => "risky"@,
        }
    }

    /// Lower-case name of the risk level, for display.
    pub fn label(&self) -> (r: String)
        ensures
            r@ == self.spec_label(),
    {
        match self {
            RiskLevel::Safe => "safe".to_owned(),
            RiskLevel::Moderate => "moderate".to_owned(),
            RiskLevel::Risky => "risky".to_owned(),
        }
    }
}

/// What kind of reclaimable space a finding is.
#[derive(Clone, Copy, Debug, PartialEq, Eq, Hash, Structural)]
pub enum CleanCategory {
    SystemCache,
    BrowserCache,
    AppCache,
    SystemLogs,
    AppLogs,
    TempFiles,
    NodeModules,
    BuildArtifacts,
    PipCache,
    BrewCache,
    CargoCache,
    LargeFiles,
    DuplicateFiles,
}

impl CleanCategory {
    pub open spec fn spec_label(self) -> Seq<char> {
        match self {
            CleanCategory::SystemCache => "System Cache"@,
            CleanCategory::BrowserCache => "Browser Cache"@,
            CleanCategory::AppCache => "Application Cache"@,
            CleanCategory::SystemLogs => "System Logs"@,
            CleanCategory::AppLogs => "Application Logs"@,
            CleanCategory::TempFiles => "Temporary Files"@,
            CleanCategory::NodeModules => "Node Modules"@,
            CleanCategory::BuildArtifacts => "Build Artifacts"@,
            CleanCategory::PipCache => "Pip Cache"@,
            CleanCategory::BrewCache => "Homebrew Cache"@,
            CleanCategory::CargoCache => "Cargo Cache"@,
            CleanCategory::LargeFiles => "Large Files"@,
            CleanCategory::DuplicateFiles => "Duplicate Files"@,
        }
    }

    /// Human-readable name of the category, for display.
    pub fn label(&self) -> (r: String)
        ensures
            r@ == self.spec_label(),
    {
        match self {
            CleanCategory::SystemCache => "System Cache".to_owned(),
            CleanCategory::BrowserCache => "Browser Cache".to_owned(),
            CleanCategory::AppCache => "Application Cache".to_owned(),
            CleanCategory::SystemLogs => "System Logs".to_owned(),
            CleanCategory::AppLogs => "Application Logs".to_owned(),
            CleanCategory::TempFiles => "Temporary Files".to_owned(),
            CleanCategory::NodeModules => "Node Modules".to_owned(),
            CleanCategory::BuildArtifacts => "Build Artifacts".to_owned(),
            CleanCategory::PipCache => "Pip Cache".to_owned(),
            CleanCategory::BrewCache => "Homebrew Cache".to_owned(),
            CleanCategory::CargoCache => "Cargo Cache".to_owned(),
            CleanCategory::LargeFiles => "Large Files".to_owned(),
            CleanCategory::DuplicateFiles => "Duplicate Files".to_owned(),
        }
    }
}

/// One reclaimable filesystem entity discovered by a sweep.
/// Immutable once created.
#[derive(Clone, Debug)]
pub struct CleanableItem {
    pub path: String,
    pub size: u64,
    pub category: CleanCategory,
    pub risk_level: RiskLevel,
    pub description: String,
}

/// The mathematical value of a finding: its strings as character
/// sequences, everything else as is.
pub ghost struct ItemView {
    pub path: Seq<char>,
    pub size: u64,
    pub category: CleanCategory,
    pub risk_level: RiskLevel,
    pub description: Seq<char>,
}

impl View for CleanableItem {
    type V = ItemView;

    open spec fn view(&self) -> ItemView {
        ItemView {
            path: self.path@,
            size: self.size,
            category: self.category,
            risk_level: self.risk_level,
            description: self.description@,
        }
    }
}

impl DeepView for CleanableItem {
    type V = ItemView;

    open spec fn deep_view(&self) -> ItemView {
        self.view()
    }
}

/// The terminal, read-only artifact of one scan invocation.
#[derive(Clone, Debug)]
pub struct ScanResults {
    pub items: Vec<CleanableItem>,
    pub total_size: u64,
    pub scan_speed: ScanSpeed,
}

/// Caller-supplied parameters of one scan.
#[derive(Clone, Debug)]
pub struct ScanConfig {
    pub speed: ScanSpeed,
    pub paths: Vec<String>,
    pub min_file_size_mb: u64,
    pub max_depth: Option<usize>,
    pub find_duplicates: bool,
}

/// Grouping key of the duplicate detector: two files are duplicates
/// iff they agree on both the content digest and the byte size.
#[derive(Clone, Debug, PartialEq, Eq, Hash)]
pub struct FileHash {
    pub hash: String,
    pub size: u64,
}

impl FileHash {
    /// Spec-level key equality: same digest string and same size.
    pub open spec fn key_eq(self, other: FileHash) -> bool {
        self.hash@ == other.hash@ && self.size == other.size
    }

    /// Decides key equality.
    pub fn same_key(&self, other: &FileHash) -> (r: bool)
        ensures
            r == self.key_eq(*other),
    {
        self.hash.eq(&other.hash) && self.size == other.size
    }
}

} // verus!
