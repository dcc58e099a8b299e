//! The types of the mutation-testing report schema, version 2
//! (https://github.com/stryker-mutator/mutation-testing-elements,
//! packages/report-schema). Downstream scripts parse `files[path].mutants[]`
//! directly.
use vstd::prelude::*;

use crate::model::Location;
use crate::model::MutantStatus;
use crate::model::Position;
use crate::text::ends_in;
use crate::text_map::TextMap;

verus! {

/// The version of the schema.
pub const SCHEMA_VERSION: &'static str = "2";

/// A report.
pub struct MutationTestResult {
    pub schema_version: String,
    pub thresholds: SchemaThresholds,
    pub project_root: Option<String>,
    /// Keyed by project-root-relative path (forward slashes).
    pub files: TextMap<FileResult>,
    pub test_files: Option<TextMap<TestFile>>,
    pub framework: Option<FrameworkInformation>,
    pub config: Option<serde_json::Value>,
    pub performance: Option<Performance>,
}

/// The thresholds of the score, as the bits of doubles.
#[derive(Debug, Clone, Copy, PartialEq, Eq, Structural)]
pub struct SchemaThresholds {
    pub high_bits: u64,
    pub low_bits: u64,
}

/// One mutated file.
#[derive(Debug)]
pub struct FileResult {
    pub language: String,
    pub source: String,
    pub mutants: Vec<MutantResultJson>,
}

/// One mutant.
#[derive(Debug)]
pub struct MutantResultJson {
    pub id: String,
    pub mutator_name: String,
    pub location: Location,
    pub status: MutantStatus,
    pub replacement: Option<String>,
    pub covered_by: Option<Vec<String>>,
    pub killed_by: Option<Vec<String>>,
    pub description: Option<String>,
    pub duration: Option<u64>,
    pub is_static: Option<bool>,
    pub status_reason: Option<String>,
    pub tests_completed: Option<u32>,
}

/// One test file.
#[derive(Debug)]
pub struct TestFile {
    pub source: Option<String>,
    pub tests: Vec<TestDefinition>,
}

/// One test.
#[derive(Debug)]
pub struct TestDefinition {
    pub id: String,
    pub name: String,
    pub location: Option<OpenEndLocation>,
}

/// Where a test stands; its end may be unknown.
#[derive(Debug, Clone, Copy, PartialEq, Eq)]
pub struct OpenEndLocation {
    pub start: Position,
    pub end: Option<Position>,
}

/// What wrote the report.
#[derive(Debug)]
pub struct FrameworkInformation {
    pub name: String,
    pub version: Option<String>,
    pub branding: Option<Branding>,
}

/// Where it comes from.
#[derive(Debug)]
pub struct Branding {
    pub homepage_url: String,
    pub image_url: Option<String>,
}

/// How long the phases took, in milliseconds.
#[derive(Debug, Clone, Copy, PartialEq, Eq, Structural)]
pub struct Performance {
    pub setup: u64,
    pub initial_run: u64,
    pub mutation: u64,
}

// ---- values ----

/// The mathematical value of a mutant of a report.
pub struct JsonView {
    pub id: Seq<char>,
    pub mutator_name: Seq<char>,
    pub location: Location,
    pub status: MutantStatus,
    pub replacement: Option<Seq<char>>,
    pub covered_by: Option<Seq<Seq<char>>>,
    pub killed_by: Option<Seq<Seq<char>>>,
    pub description: Option<Seq<char>>,
    pub duration: Option<u64>,
    pub is_static: Option<bool>,
    pub status_reason: Option<Seq<char>>,
    pub tests_completed: Option<u32>,
}

impl MutantResultJson {
    pub open spec fn view(&self) -> JsonView {
        JsonView {
            id: self.id@,
            mutator_name: self.mutator_name@,
            location: self.location,
            status: self.status,
            replacement: crate::text::opt_text(self.replacement),
            covered_by: crate::text::opt_texts(self.covered_by),
            killed_by: crate::text::opt_texts(self.killed_by),
            description: crate::text::opt_text(self.description),
            duration: self.duration,
            is_static: self.is_static,
            status_reason: crate::text::opt_text(self.status_reason),
            tests_completed: self.tests_completed,
        }
    }
}

/// The values of a list of mutants.
pub open spec fn json_views(v: Seq<MutantResultJson>) -> Seq<JsonView> {
    v.map_values(|m: MutantResultJson| m@)
}

/// The mathematical value of a file.
pub struct FileView {
    pub language: Seq<char>,
    pub source: Seq<char>,
    pub mutants: Seq<JsonView>,
}

impl FileResult {
    pub open spec fn view(&self) -> FileView {
        FileView {
            language: self.language@,
            source: self.source@,
            mutants: json_views(self.mutants@),
        }
    }
}

/// The values of a map of files.
pub open spec fn file_views(m: Map<Seq<char>, FileResult>) -> Map<Seq<char>, FileView> {
    m.map_values(|f: FileResult| f@)
}

/// The mathematical value of a test.
pub struct TestView {
    pub id: Seq<char>,
    pub name: Seq<char>,
    pub location: Option<OpenEndLocation>,
}

impl TestDefinition {
    pub open spec fn view(&self) -> TestView {
        TestView { id: self.id@, name: self.name@, location: self.location }
    }
}

/// The values of a list of tests.
pub open spec fn definition_views(v: Seq<TestDefinition>) -> Seq<TestView> {
    v.map_values(|t: TestDefinition| t@)
}

/// The mathematical value of a test file.
pub struct TestFileView {
    pub source: Option<Seq<char>>,
    pub tests: Seq<TestView>,
}

impl TestFile {
    pub open spec fn view(&self) -> TestFileView {
        TestFileView {
            source: crate::text::opt_text(self.source),
            tests: definition_views(self.tests@),
        }
    }
}

/// The values of a map of test files.
pub open spec fn test_file_views(m: Map<Seq<char>, TestFile>) -> Map<Seq<char>, TestFileView> {
    m.map_values(|f: TestFile| f@)
}

/// The language of a file in a report.
pub open spec fn language_of(path: Seq<char>) -> Seq<char> {
    if crate::text::ends(path, ".tsx"@) || crate::text::ends(path, ".jsx"@) || crate::text::ends(
        path,
        ".ts"@,
    ) || crate::text::ends(path, ".mts"@) || crate::text::ends(path, ".cts"@) {
        "typescript"@
    } else {
        "javascript"@
    }
}

/// The language of a file in a report.
pub fn language_for(path: &str) -> (r: &'static str)
    ensures
        r@ == language_of(path@),
{
    if ends_in(path, ".tsx") || ends_in(path, ".jsx") {
        "typescript"  // Prism uses `typescript` for tsx as well
    } else if ends_in(path, ".ts") || ends_in(path, ".mts") || ends_in(path, ".cts") {
        "typescript"
    } else {
        "javascript"
    }
}

/// Files of TypeScript and those with elements are reported as TypeScript, all
/// others as JavaScript.
pub proof fn law_languages(path: Seq<char>)
    ensures
        crate::text::ends(path, ".ts"@) || crate::text::ends(path, ".tsx"@) || crate::text::ends(
            path,
            ".mts"@,
        ) || crate::text::ends(path, ".cts"@) || crate::text::ends(path, ".jsx"@)
            ==> language_of(path) == "typescript"@,
        !(crate::text::ends(path, ".ts"@) || crate::text::ends(path, ".tsx"@) || crate::text::ends(
            path,
            ".mts"@,
        ) || crate::text::ends(path, ".cts"@) || crate::text::ends(path, ".jsx"@))
            ==> language_of(path) == "javascript"@,
{
}

} // verus!
