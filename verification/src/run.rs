//! Decisions of a run outside its tests: numbering mutants over all files,
//! refusing dirty files, choosing reports.
use vstd::prelude::*;

use crate::config::StrykerConfig;
use crate::instrument::instrument_file;
use crate::instrument::InstrumentError;
use crate::instrument::InstrumentOptions;
use crate::instrument::InstrumentedFile;
use crate::model::Mutant;
use crate::mutate_pattern::MutationRange;
use crate::paths::join_path;
use crate::project::MutateTarget;
use crate::text::concat3;
use crate::text::copy_text;
use crate::text::copy_texts;
use crate::text::join;
use crate::text::same;
use crate::text_map::TextMap;

verus! {

// ---- instrumenting all targets ----

/// A file and its instrumented text.
#[derive(Debug)]
pub struct InstrumentedText {
    pub path: String,
    pub text: String,
}

/// What instrumenting the targets has given so far.
pub struct Session {
    /// The original sources of all targets that could be read.
    pub sources: TextMap<String>,
    pub mutants: Vec<Mutant>,
    pub instrumented: Vec<InstrumentedText>,
    /// The id of the next mutant.
    pub next_id: u32,
}

/// The mathematical value of a session.
pub struct SessionView {
    pub sources: Map<Seq<char>, Seq<char>>,
    pub mutants: Seq<crate::instrument::MutantView>,
    pub instrumented: Seq<(Seq<char>, Seq<char>)>,
    pub next_id: u32,
}

/// The values of a list of instrumented texts.
pub open spec fn text_views(v: Seq<InstrumentedText>) -> Seq<(Seq<char>, Seq<char>)> {
    v.map_values(|t: InstrumentedText| (t.path@, t.text@))
}

impl Session {
    pub open spec fn view(&self) -> SessionView {
        SessionView {
            sources: crate::incremental::text_values(self.sources@),
            mutants: crate::instrument::mutant_views(self.mutants@),
            instrumented: text_views(self.instrumented@),
            next_id: self.next_id,
        }
    }
}

/// Whether the mutants are numbered from zero on, without gaps.
pub open spec fn well_numbered(session: SessionView) -> bool {
    &&& session.next_id == session.mutants.len()
    &&& forall|i: int|
        0 <= i < session.mutants.len() ==> (#[trigger] session.mutants[i]).id == i
}

/// How a target is instrumented.
pub open spec fn options_for(
    config: StrykerConfig,
    target: crate::project::TargetView,
) -> crate::instrument::OptionsView {
    crate::instrument::OptionsView {
        excluded_mutators: crate::text::texts(config.mutator.excluded_mutations@),
        ranges: target.ranges,
        disable_type_checks: config.disable_type_checks,
        namespace: None,
    }
}

/// The session after one more file: a file that cannot be instrumented is only
/// remembered.
pub open spec fn with_file(
    session: SessionView,
    path: Seq<char>,
    source: Seq<char>,
    result: Result<crate::instrument::InstrumentedView, crate::instrument::ErrorView>,
) -> SessionView {
    let sources = session.sources.insert(path, source);
    match result {
        Ok(file) => SessionView {
            sources,
            mutants: session.mutants + file.mutants,
            instrumented: match file.instrumented {
                Some(text) => session.instrumented.push((path, text)),
                None => session.instrumented,
            },
            next_id: (session.next_id + file.mutants.len()) as u32,
        },
        Err(_) => SessionView { sources, ..session },
    }
}

/// What instrumenting a target gives.
pub open spec fn target_result(
    config: StrykerConfig,
    target: crate::project::TargetView,
    source: Seq<char>,
    next_id: u32,
) -> Result<crate::instrument::InstrumentedView, crate::instrument::ErrorView> {
    crate::instrument::instrumented_file(
        target.path,
        source,
        crate::estree::parsed_file(target.path, source, true, false),
        next_id,
        options_for(config, target),
    )
}

fn copy_ranges(ranges: &Vec<MutationRange>) -> (r: Vec<MutationRange>)
    ensures
        r@ == ranges@,
{
    let mut out: Vec<MutationRange> = Vec::new();
    let mut i: usize = 0;
    while i < ranges.len()
        invariant
            i <= ranges@.len(),
            out@ =~= ranges@.take(i as int),
        decreases ranges@.len() - i,
    {
        out.push(ranges[i]);
        i = i + 1;
    }
    proof {
        assert(ranges@.take(ranges@.len() as int) =~= ranges@);
    }
    out
}

proof fn lemma_ids(
    path: Seq<char>,
    s: Seq<char>,
    parsed: crate::estree::ParsedView,
    next: u32,
    options: crate::instrument::OptionsView,
)
    ensures
        crate::instrument::instrumented_file(path, s, parsed, next, options) matches Ok(file) ==> {
            &&& next + file.mutants.len() <= u32::MAX
            &&& forall|i: int|
                0 <= i < file.mutants.len() ==> (#[trigger] file.mutants[i]).id == next + i
        },
{
    match crate::instrument::instrumented_file(path, s, parsed, next, options) {
        Ok(file) => {
            let program = crate::estree::program_tree(parsed.json)->0;
            let sites = crate::instrument::sites_in(
                s,
                program,
                parsed.comments,
                options.excluded_mutators,
            );
            crate::instrument::law_ids_are_sequential(s, path, options.ranges, sites, next as int);
            let list = crate::instrument::numbered(s, path, options.ranges, sites, next as int).0;
            assert(file.mutants == list);
            assert forall|i: int| 0 <= i < file.mutants.len() implies (
            #[trigger] file.mutants[i]).id == next + i by {
                assert(list[i].id == (next + i) as u32);
            }
        },
        Err(_) => {},
    }
}

impl Session {
    /// Nothing instrumented yet.
    pub fn new() -> (r: Session)
        ensures
            r@ == (SessionView {
                sources: Map::empty(),
                mutants: Seq::empty(),
                instrumented: Seq::empty(),
                next_id: 0,
            }),
            well_numbered(r@),
    {
        let r = Session {
            sources: TextMap::new(),
            mutants: Vec::new(),
            instrumented: Vec::new(),
            next_id: 0,
        };
        proof {
            assert(r@.sources =~= Map::<Seq<char>, Seq<char>>::empty());
            assert(r@.mutants =~= Seq::<crate::instrument::MutantView>::empty());
            assert(r@.instrumented =~= Seq::<(Seq<char>, Seq<char>)>::empty());
        }
        r
    }

    /// Instruments one more target with the given source. Where that fails, the
    /// file stays as it is, and the error says why.
    pub fn take_file(&mut self, target: &MutateTarget, source: String, config: &StrykerConfig) -> (r:
        Option<InstrumentError>)
        ensures
            final(self)@ == with_file(
                old(self)@,
                target.path@,
                source@,
                target_result(*config, target@, source@, old(self).next_id),
            ),
            match target_result(*config, target@, source@, old(self).next_id) {
                Ok(_) => r is None,
                Err(e) => r matches Some(cause) && cause@ == e,
            },
            well_numbered(old(self)@) ==> well_numbered(final(self)@),
    {
        let options = InstrumentOptions {
            excluded_mutators: copy_texts(&config.mutator.excluded_mutations),
            ranges: copy_ranges(&target.ranges),
            disable_type_checks: config.disable_type_checks,
            namespace: None,
        };
        let path = target.path.as_str();
        let ghost before = self@;
        let ghost next = self.next_id;
        proof {
            assert(options@ == options_for(*config, target@));
            lemma_ids(
                path@,
                source@,
                crate::estree::parsed_file(path@, source@, true, false),
                next,
                options@,
            );
        }
        let result = instrument_file(path, source.as_str(), self.next_id, &options);
        let ghost files = self.sources@;
        self.sources.insert(copy_text(path), source);
        proof {
            assert(crate::incremental::text_values(self.sources@) =~= before.sources.insert(
                path@,
                source@,
            ));
        }
        match result {
            Ok(file) => {
                let InstrumentedFile { mutants, instrumented } = file;
                let ghost own = mutants@;
                let ghost listed = self.mutants@;
                let count = mutants.len() as u32;
                proof {
                    assert(crate::instrument::mutant_views(own).len() == own.len());
                }
                self.next_id = self.next_id + count;
                let mut more = mutants;
                self.mutants.append(&mut more);
                proof {
                    assert(crate::instrument::mutant_views(self.mutants@)
                        =~= crate::instrument::mutant_views(listed)
                        + crate::instrument::mutant_views(own));
                }
                if let Some(text) = instrumented {
                    let ghost placed = self.instrumented@;
                    self.instrumented.push(InstrumentedText { path: copy_text(path), text });
                    proof {
                        assert(text_views(self.instrumented@) =~= text_views(placed).push(
                            (path@, text@),
                        ));
                    }
                }
                None
            },
            Err(e) => Some(e),
        }
    }
}

// ---- dirty files ----

/// The first files of a list.
pub open spec fn first_five(files: Seq<Seq<char>>) -> Seq<Seq<char>> {
    if files.len() <= 5 {
        files
    } else {
        files.take(5)
    }
}

/// What is said where files with uncommitted changes would be mutated.
pub open spec fn refusal_words(dirty: Seq<Seq<char>>) -> Seq<char> {
    "refusing to mutate files with uncommitted changes (a failed restore would lose your work): "@
        + crate::text::joined(first_five(dirty), ", "@)
        + "\nCommit/stash them or pass --force-dirty."@
}

/// Why a run is refused: a failed restore would lose uncommitted changes.
pub fn refusal(dirty: &Vec<String>) -> (r: Option<String>)
    ensures
        match r {
            Some(message) => dirty@.len() > 0 && message@ == refusal_words(
                crate::text::texts(dirty@),
            ),
            None => dirty@.len() == 0,
        },
{
    if dirty.len() == 0 {
        return None;
    }
    let ghost all = crate::text::texts(dirty@);
    let mut shown: Vec<String> = Vec::new();
    let mut i: usize = 0;
    proof {
        assert(crate::text::texts(shown@) =~= all.take(0));
    }
    while i < dirty.len() && i < 5
        invariant
            i <= dirty@.len(),
            i <= 5,
            all == crate::text::texts(dirty@),
            crate::text::texts(shown@) == all.take(i as int),
        decreases dirty@.len() - i,
    {
        let copy = copy_text(dirty[i].as_str());
        proof {
            crate::text::lemma_texts_push(shown@, copy);
            assert(all.take(i + 1) =~= all.take(i as int).push(copy@));
        }
        shown.push(copy);
        i = i + 1;
    }
    proof {
        assert(all.take(i as int) =~= first_five(all));
    }
    Some(
        concat3(
            "refusing to mutate files with uncommitted changes (a failed restore would lose your work): ",
            join(&shown, ", ").as_str(),
            "\nCommit/stash them or pass --force-dirty.",
        ),
    )
}

// ---- reports ----

/// What a configured reporter does.
#[derive(Debug)]
pub enum ReporterAction {
    /// Print the report in words.
    ClearText,
    /// Write the report to a file.
    Json(String),
    /// Write the page of the report to a file.
    Html(String),
    /// Progress is shown anyway.
    Silent,
    /// There is no such reporter.
    Unknown,
}

/// Where a report goes.
pub open spec fn report_path(
    root: Seq<char>,
    configured: Option<String>,
    default: Seq<char>,
) -> Seq<char> {
    crate::paths::under(
        root,
        match configured {
            Some(path) => path@,
            None => default,
        },
    )
}

fn place_report(root: &str, configured: &Option<String>, default: &str) -> (r: String)
    ensures
        r@ == report_path(root@, *configured, default@),
{
    match configured {
        Some(path) => join_path(root, path.as_str()),
        None => join_path(root, default),
    }
}

/// What a configured reporter does.
pub fn reporter_action(reporter: &str, config: &StrykerConfig, root: &str) -> (r: ReporterAction)
    ensures
        if reporter@ == "clear-text"@ {
            r is ClearText
        } else if reporter@ == "json"@ {
            r matches ReporterAction::Json(path) && path@ == report_path(
                root@,
                config.json_reporter.file_name,
                "reports/mutation/mutation.json"@,
            )
        } else if reporter@ == "html"@ {
            r matches ReporterAction::Html(path) && path@ == report_path(
                root@,
                config.html_reporter.file_name,
                "reports/mutation/mutation.html"@,
            )
        } else if reporter@ == "progress"@ || reporter@ == "dots"@ {
            r is Silent
        } else {
            r is Unknown
        },
{
    if same(reporter, "clear-text") {
        ReporterAction::ClearText
    } else if same(reporter, "json") {
        ReporterAction::Json(
            place_report(root, &config.json_reporter.file_name, "reports/mutation/mutation.json"),
        )
    } else if same(reporter, "html") {
        ReporterAction::Html(
            place_report(root, &config.html_reporter.file_name, "reports/mutation/mutation.html"),
        )
    } else if same(reporter, "progress") || same(reporter, "dots") {
        ReporterAction::Silent
    } else {
        ReporterAction::Unknown
    }
}

// ---- what holds of a session ----

/// Taking a file in adds what is found in it behind what is there: its source, its
/// mutants, and its text where it was rewritten. A file that fails adds its source
/// alone, and nothing that is there is lost.
pub proof fn law_files_are_added(
    session: SessionView,
    path: Seq<char>,
    source: Seq<char>,
    result: Result<crate::instrument::InstrumentedView, crate::instrument::ErrorView>,
    other: Seq<char>,
)
    requires
        result matches Ok(file) ==> session.next_id + file.mutants.len() <= u32::MAX,
    ensures
        ({
            let all = with_file(session, path, source, result);
            let found = match result {
                Ok(file) => file.mutants,
                Err(_) => Seq::empty(),
            };
            let texts = match result {
                Ok(file) => match file.instrumented {
                    Some(text) => seq![(path, text)],
                    None => Seq::empty(),
                },
                Err(_) => Seq::empty(),
            };
            &&& all.sources.contains_key(other) <==> session.sources.contains_key(other) || other
                == path
            &&& all.sources[path] == source
            &&& session.sources.contains_key(other) && other != path ==> all.sources[other]
                == session.sources[other]
            &&& all.mutants == session.mutants + found
            &&& all.instrumented == session.instrumented + texts
            &&& all.next_id == session.next_id + found.len()
        }),
{
    let all = with_file(session, path, source, result);
    match result {
        Ok(file) => match file.instrumented {
            Some(text) => {
                assert(all.instrumented =~= session.instrumented + seq![(path, text)]);
            },
            None => {
                assert(all.instrumented =~= session.instrumented + Seq::<
                    (Seq<char>, Seq<char>),
                >::empty());
            },
        },
        Err(_) => {
            assert(all.mutants =~= session.mutants + Seq::<
                crate::instrument::MutantView,
            >::empty());
            assert(all.instrumented =~= session.instrumented + Seq::<
                (Seq<char>, Seq<char>),
            >::empty());
        },
    }
}

/// A target is instrumented as it asks and as the configuration says: only its
/// ranges, without the excluded mutators, numbered on from the next id.
pub proof fn law_targets_are_instrumented_as_asked(
    config: StrykerConfig,
    target: crate::project::TargetView,
)
    ensures
        options_for(config, target).ranges == target.ranges,
        options_for(config, target).excluded_mutators == crate::text::texts(
            config.mutator.excluded_mutations@,
        ),
        options_for(config, target).disable_type_checks == config.disable_type_checks,
        options_for(config, target).namespace is None,
{
}

/// A refusal names up to five of the files, and says what to do.
pub proof fn law_refusals_name_files(dirty: Seq<Seq<char>>)
    ensures
        refusal_words(dirty)
            == "refusing to mutate files with uncommitted changes (a failed restore would lose your work): "@
            + crate::text::joined(
            if dirty.len() > 5 {
                dirty.subrange(0, 5)
            } else {
                dirty
            },
            ", "@,
        ) + "\nCommit/stash them or pass --force-dirty."@,
{
    if dirty.len() > 5 {
        assert(dirty.take(5) =~= dirty.subrange(0, 5));
    }
}

/// A report goes where it is configured to go, below the root, and otherwise to
/// the default place.
pub proof fn law_report_places(root: Seq<char>, configured: Option<String>, default: Seq<char>)
    ensures
        configured is None ==> report_path(root, configured, default) == crate::paths::under(
            root,
            default,
        ),
        configured matches Some(path) ==> report_path(root, configured, default)
            == crate::paths::under(root, path@),
{
}

} // verus!
