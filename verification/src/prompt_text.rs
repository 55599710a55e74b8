//! Rendering the sub-agent prompt as Markdown.

use vstd::prelude::*;
use crate::ir::{language_name, Language, ScanIndex, ScanStats};
use crate::prompt::{
    assignments_view, build_concern_assignments, build_directory_assignments,
    build_hybrid_assignments, deref_files, filter_files_by_focus, files_where,
    project_name_from_root, select_strategy, spec_concern_assignments,
    spec_directory_assignments, spec_hybrid_assignments, spec_select_strategy, AgentAssignment,
    AssignmentView, PartitionStrategy, PromptConfig,
};
use crate::text::{append_str, copy_string, dec, decimal, join_strings, join_with, strs};
use crate::DomainScanError;

verus! {

// ---------------------------------------------------------------------------
// Small writers
// ---------------------------------------------------------------------------

/// Appends a decimal number.
fn write_num(out: &mut String, n: usize)
    ensures
        final(out)@ == old(out)@ + dec(n as nat),
{
    let d = decimal(n as u64);
    append_str(out, d.as_str());
}

// ---------------------------------------------------------------------------
// Header
// ---------------------------------------------------------------------------

/// A `(language, count)` pair as shown: `TypeScript (50)`.
pub open spec fn lang_item(l: Language, c: nat) -> Seq<char> {
    language_name(l) + " ("@ + dec(c) + ")"@
}

/// Inserting after every pair with at least the same count (a stable sort
/// by decreasing count).
pub open spec fn ins_lang(s: Seq<(Language, usize)>, x: (Language, usize)) -> Seq<(Language, usize)>
    decreases s.len(),
{
    if s.len() == 0 {
        seq![x]
    } else if x.1 > s.last().1 {
        ins_lang(s.drop_last(), x).push(s.last())
    } else {
        s.push(x)
    }
}

pub open spec fn langs_by_count(s: Seq<(Language, usize)>) -> Seq<(Language, usize)>
    decreases s.len(),
{
    if s.len() == 0 {
        Seq::empty()
    } else {
        ins_lang(langs_by_count(s.drop_last()), s.last())
    }
}

/// The languages by decreasing file count, as `Name (count)`, joined by
/// `, `.
pub open spec fn spec_language_stats(s: Seq<(Language, usize)>) -> Seq<char> {
    join_with(
        langs_by_count(s).map_values(|p: (Language, usize)| lang_item(p.0, p.1 as nat)),
        seq![',', ' '],
    )
}

proof fn lemma_ins_lang_at(s: Seq<(Language, usize)>, x: (Language, usize), j: int)
    requires
        0 <= j <= s.len(),
        forall|k: int| j <= k < s.len() ==> x.1 > (#[trigger] s[k]).1,
        j > 0 ==> !(x.1 > s[j - 1].1),
    ensures
        ins_lang(s, x) == s.take(j).push(x) + s.skip(j),
    decreases s.len(),
{
    if s.len() == 0 {
        assert(s.take(j).push(x) + s.skip(j) =~= seq![x]);
    } else if j == s.len() {
        assert(s.take(j) =~= s);
        assert(s.take(j).push(x) + s.skip(j) =~= s.push(x));
    } else {
        lemma_ins_lang_at(s.drop_last(), x, j);
        assert(s.take(j).push(x) + s.skip(j) =~= (s.drop_last().take(j).push(x) + s.drop_last().skip(
            j,
        )).push(s.last()));
    }
}

/// Formats the per-language file counts, most files first.
pub fn format_language_stats(stats: &ScanStats) -> (r: String)
    ensures
        r@ == spec_language_stats(stats.files_by_language@),
{
    let v = &stats.files_by_language;
    let mut sorted: Vec<(Language, usize)> = Vec::new();
    let mut i: usize = 0;
    while i < v.len()
        invariant
            i <= v.len(),
            sorted@ == langs_by_count(v@.take(i as int)),
        decreases v.len() - i,
    {
        assert(v@.take(i + 1 as int).drop_last() =~= v@.take(i as int));
        assert(v@.take(i + 1 as int).last() == v@[i as int]);
        let x = v[i];
        let ghost s = sorted@;
        let mut j: usize = sorted.len();
        while j > 0 && x.1 > sorted[j - 1].1
            invariant
                j <= sorted.len(),
                s == sorted@,
                forall|k: int| j <= k < sorted.len() ==> x.1 > (#[trigger] s[k]).1,
            decreases j,
        {
            j -= 1;
        }
        proof {
            lemma_ins_lang_at(s, x, j as int);
        }
        sorted.insert(j, x);
        assert(sorted@ =~= s.take(j as int).push(x) + s.skip(j as int));
        i += 1;
    }
    assert(v@.take(v.len() as int) =~= v@);
    let mut items: Vec<String> = Vec::new();
    let mut k: usize = 0;
    while k < sorted.len()
        invariant
            k <= sorted.len(),
            strs(items@) == sorted@.take(k as int).map_values(
                |p: (Language, usize)| lang_item(p.0, p.1 as nat),
            ),
        decreases sorted.len() - k,
    {
        let (l, c) = sorted[k];
        let mut item = l.to_string();
        append_str(&mut item, " (");
        write_num(&mut item, c);
        append_str(&mut item, ")");
        let ghost b = strs(items@);
        items.push(item);
        assert(strs(items@) =~= b.push(lang_item(l, c as nat)));
        k += 1;
        assert(sorted@.take(k as int).map_values(|p: (Language, usize)| lang_item(p.0, p.1 as nat))
            =~= b.push(lang_item(l, c as nat)));
    }
    assert(sorted@.take(sorted.len() as int) =~= sorted@);
    let sep = ", ";
    proof {
        reveal_strlit(", ");
        assert(sep@ =~= seq![',', ' ']);
    }
    join_strings(&items, sep)
}

/// One statistics line: `label` then the number.
pub open spec fn count_line(label: Seq<char>, n: nat) -> Seq<char> {
    label + dec(n) + "\n"@
}

/// The title and context lines of the header.
pub open spec fn intro_text(name: Seq<char>, root: Seq<char>) -> Seq<char> {
    "# Codebase Structural Analysis: "@ + name + "\n"@ + "\n"@ + "## Context\n"@ + "\n"@
        + "You are analyzing the codebase at `"@ + root + "`.\n"@
        + "A structural scan has identified the following high-level statistics:\n"@ + "\n"@
}

/// The statistics lines of the header.
pub open spec fn counts_text(stats: ScanStats) -> Seq<char> {
    count_line("- **Total files:** "@, stats.total_files as nat)
        + count_line("- **Interfaces:** "@, stats.total_interfaces as nat)
        + count_line("- **Services:** "@, stats.total_services as nat)
        + count_line("- **Classes:** "@, stats.total_classes as nat)
        + count_line("- **Functions:** "@, stats.total_functions as nat)
        + count_line("- **Methods:** "@, stats.total_methods as nat)
        + count_line("- **Schemas:** "@, stats.total_schemas as nat)
        + count_line("- **Type aliases:** "@, stats.total_type_aliases as nat)
        + count_line("- **Implementations:** "@, stats.total_implementations as nat)
}

/// The languages line, when any language was seen.
pub open spec fn languages_text(stats: ScanStats) -> Seq<char> {
    if stats.files_by_language@.len() > 0 {
        "- **Languages:** "@ + spec_language_stats(stats.files_by_language@) + "\n"@
    } else {
        Seq::empty()
    }
}

/// The header: title, context and the scan's statistics.
pub open spec fn header_text(name: Seq<char>, root: Seq<char>, stats: ScanStats) -> Seq<char> {
    intro_text(name, root) + counts_text(stats) + languages_text(stats) + "\n"@
}

fn write_count_line(out: &mut String, label: &str, n: usize)
    ensures
        final(out)@ == old(out)@ + count_line(label@, n as nat),
{
    append_str(out, label);
    write_num(out, n);
    append_str(out, "\n");
    assert(out@ =~= old(out)@ + count_line(label@, n as nat));
}

fn write_intro(out: &mut String, project_name: &str, root: &str)
    ensures
        final(out)@ == old(out)@ + intro_text(project_name@, root@),
{
    append_str(out, "# Codebase Structural Analysis: ");
    append_str(out, project_name);
    append_str(out, "\n");
    append_str(out, "\n");
    append_str(out, "## Context\n");
    append_str(out, "\n");
    append_str(out, "You are analyzing the codebase at `");
    append_str(out, root);
    append_str(out, "`.\n");
    append_str(out, "A structural scan has identified the following high-level statistics:\n");
    append_str(out, "\n");
    assert(out@ =~= old(out)@ + intro_text(project_name@, root@));
}

fn write_counts(out: &mut String, stats: &ScanStats)
    ensures
        final(out)@ == old(out)@ + counts_text(*stats),
{
    write_count_line(out, "- **Total files:** ", stats.total_files);
    write_count_line(out, "- **Interfaces:** ", stats.total_interfaces);
    write_count_line(out, "- **Services:** ", stats.total_services);
    write_count_line(out, "- **Classes:** ", stats.total_classes);
    write_count_line(out, "- **Functions:** ", stats.total_functions);
    write_count_line(out, "- **Methods:** ", stats.total_methods);
    write_count_line(out, "- **Schemas:** ", stats.total_schemas);
    write_count_line(out, "- **Type aliases:** ", stats.total_type_aliases);
    write_count_line(out, "- **Implementations:** ", stats.total_implementations);
    assert(out@ =~= old(out)@ + counts_text(*stats));
}

/// Writes the header.
pub fn write_header(out: &mut String, project_name: &str, root: &str, stats: &ScanStats)
    ensures
        final(out)@ == old(out)@ + header_text(project_name@, root@, *stats),
{
    write_intro(out, project_name, root);
    write_counts(out, stats);
    let ghost mid = out@;
    if stats.files_by_language.len() > 0 {
        append_str(out, "- **Languages:** ");
        let ls = format_language_stats(stats);
        append_str(out, ls.as_str());
        append_str(out, "\n");
    }
    assert(out@ =~= mid + languages_text(*stats));
    append_str(out, "\n");
    assert(out@ =~= old(out)@ + header_text(project_name@, root@, *stats));
}

// ---------------------------------------------------------------------------
// Task and synthesis
// ---------------------------------------------------------------------------

pub open spec fn task_text(agents: nat) -> Seq<char> {
    "## Your Task\n"@ + "\n"@ + "Launch "@ + dec(agents)
        + " sub-agents to perform a deep structural analysis of this codebase.\n"@
        + "Each sub-agent should scan its assigned partition and report back with findings.\n"@
        + "\n"@
}

/// Writes the task section.
pub fn write_task_section(out: &mut String, agents: usize)
    ensures
        final(out)@ == old(out)@ + task_text(agents as nat),
{
    append_str(out, "## Your Task\n");
    append_str(out, "\n");
    append_str(out, "Launch ");
    write_num(out, agents);
    append_str(out, " sub-agents to perform a deep structural analysis of this codebase.\n");
    append_str(out, "Each sub-agent should scan its assigned partition and report back with findings.\n");
    append_str(out, "\n");
    assert(out@ =~= old(out)@ + task_text(agents as nat));
}

pub open spec fn synthesis_text() -> Seq<char> {
    "## Synthesis\n"@ + "\n"@ + "After all agents complete, synthesize findings into:\n"@ + "\n"@
        + "1. **Architecture Map**: Top-level service → interface → implementation hierarchy\n"@
        + "2. **Health Report**: God objects, dead interfaces, incomplete impls, circular deps\n"@
        + "3. **API Surface**: Complete public API with method signatures\n"@
        + "4. **Recommendations**: Specific refactoring suggestions with file:line references\n"@
        + "\n"@ + "## Output Format\n"@ + "\n"@ + "Each agent should return structured JSON:\n"@
        + "```json\n"@ + "{\n"@ + "  \"agent_id\": 1,\n"@
        + "  \"scope\": \"Interface & Type Boundary Audit\",\n"@ + "  \"findings\": [...],\n"@
        + "  \"flags\": [...],\n"@ + "  \"file_count\": 42,\n"@ + "  \"entity_count\": 156\n"@
        + "}\n"@ + "```\n"@
}

/// Writes the synthesis and output-format section.
pub fn write_synthesis_section(out: &mut String)
    ensures
        final(out)@ == old(out)@ + synthesis_text(),
{
    append_str(out, "## Synthesis\n");
    append_str(out, "\n");
    append_str(out, "After all agents complete, synthesize findings into:\n");
    append_str(out, "\n");
    append_str(out, "1. **Architecture Map**: Top-level service → interface → implementation hierarchy\n");
    append_str(out, "2. **Health Report**: God objects, dead interfaces, incomplete impls, circular deps\n");
    append_str(out, "3. **API Surface**: Complete public API with method signatures\n");
    append_str(out, "4. **Recommendations**: Specific refactoring suggestions with file:line references\n");
    append_str(out, "\n");
    append_str(out, "## Output Format\n");
    append_str(out, "\n");
    append_str(out, "Each agent should return structured JSON:\n");
    append_str(out, "```json\n");
    append_str(out, "{\n");
    append_str(out, "  \"agent_id\": 1,\n");
    append_str(out, "  \"scope\": \"Interface & Type Boundary Audit\",\n");
    append_str(out, "  \"findings\": [...],\n");
    append_str(out, "  \"flags\": [...],\n");
    append_str(out, "  \"file_count\": 42,\n");
    append_str(out, "  \"entity_count\": 156\n");
    append_str(out, "}\n");
    append_str(out, "```\n");
    assert(out@ =~= old(out)@ + synthesis_text());
}

pub open spec fn scan_embed_text(json: Seq<char>) -> Seq<char> {
    "\n"@ + "## Full Scan Results\n"@ + "\n"@
        + "The following is the complete structural scan output. Use this as your starting map before reading source files.\n"@
        + "\n"@ + "```json\n"@ + json + "\n"@ + "```\n"@
}

/// Writes the full scan results section around the scan's JSON text.
pub fn write_scan_embed(out: &mut String, json: &str)
    ensures
        final(out)@ == old(out)@ + scan_embed_text(json@),
{
    append_str(out, "\n");
    append_str(out, "## Full Scan Results\n");
    append_str(out, "\n");
    append_str(
        out,
        "The following is the complete structural scan output. Use this as your starting map before reading source files.\n",
    );
    append_str(out, "\n");
    append_str(out, "```json\n");
    append_str(out, json);
    append_str(out, "\n");
    append_str(out, "```\n");
    assert(out@ =~= old(out)@ + scan_embed_text(json@));
}

// ---------------------------------------------------------------------------
// Assignments
// ---------------------------------------------------------------------------

/// Numbered instruction lines: `1. first`, `2. second`, ...
pub open spec fn numbered(ins: Seq<Seq<char>>) -> Seq<char>
    decreases ins.len(),
{
    if ins.len() == 0 {
        Seq::empty()
    } else {
        numbered(ins.drop_last()) + dec(ins.len()) + ". "@ + ins.last() + "\n"@
    }
}

/// One line per path.
pub open spec fn path_lines(ps: Seq<Seq<char>>) -> Seq<char>
    decreases ps.len(),
{
    if ps.len() == 0 {
        Seq::empty()
    } else {
        path_lines(ps.drop_last()) + ps.last() + "\n"@
    }
}

pub open spec fn built_block(ps: Seq<Seq<char>>) -> Seq<char> {
    if ps.len() > 0 {
        "\n"@ + "**Files to scan (built — structural output is authoritative):**\n"@ + "\n"@
            + "> These files are from modules that compile successfully. The domain-scan structural output is authoritative. Verify the scan results are complete, catalog any patterns the static analysis missed (e.g. runtime registration, reflection-based DI), and document the architecture.\n"@
            + "\n"@ + "```\n"@ + path_lines(ps) + "```\n"@
    } else {
        Seq::empty()
    }
}

pub open spec fn non_built_block(ps: Seq<Seq<char>>) -> Seq<char> {
    if ps.len() > 0 {
        "\n"@ + "**Files to scan (unbuilt/error/rebuild — best-effort extraction):**\n"@ + "\n"@
            + "> These files are from modules that do not currently build. The domain-scan output is a best-effort extraction. Read each file carefully. Infer the intended interfaces and services from naming patterns, comments, and partial definitions. Flag conflicts between old and new definitions. Mark your findings with confidence levels.\n"@
            + "\n"@ + "```\n"@ + path_lines(ps) + "```\n"@
    } else {
        Seq::empty()
    }
}

/// The Markdown of one assignment.
pub open spec fn assignment_text(a: AssignmentView) -> Seq<char> {
    "### Agent "@ + dec(a.id) + ": "@ + a.title + "\n"@ + "**Scope:** "@ + a.scope + "\n"@ + (if a.directory_focus.len() > 0 {
        "**Directory focus:** "@ + a.directory_focus + "\n"@
    } else {
        Seq::empty()
    }) + "**Instructions:**\n"@ + numbered(a.instructions) + built_block(a.built_files) + non_built_block(a.non_built_files) + (if a.built_files.len() == 0 && a.non_built_files.len() == 0 {
        "\n"@ + "**Files to scan:** (no files matched this category)\n"@
    } else {
        Seq::empty()
    }) + "\n"@
}

pub open spec fn assignments_text(v: Seq<AssignmentView>) -> Seq<char>
    decreases v.len(),
{
    if v.len() == 0 {
        Seq::empty()
    } else {
        assignments_text(v.drop_last()) + assignment_text(v.last())
    }
}

fn write_path_lines(out: &mut String, ps: &Vec<String>)
    ensures
        final(out)@ == old(out)@ + path_lines(strs(ps@)),
{
    let ghost pv = strs(ps@);
    let mut i: usize = 0;
    while i < ps.len()
        invariant
            i <= ps.len(),
            pv == strs(ps@),
            out@ == old(out)@ + path_lines(pv.take(i as int)),
        decreases ps.len() - i,
    {
        assert(pv.take(i + 1 as int).drop_last() =~= pv.take(i as int));
        assert(pv.take(i + 1 as int).last() == ps@[i as int]@);
        append_str(out, ps[i].as_str());
        append_str(out, "\n");
        i += 1;
        assert(out@ =~= old(out)@ + path_lines(pv.take(i as int)));
    }
    assert(pv.take(ps.len() as int) =~= pv);
}

fn write_numbered(out: &mut String, ins: &Vec<String>)
    ensures
        final(out)@ == old(out)@ + numbered(strs(ins@)),
{
    let ghost iv = strs(ins@);
    let mut i: usize = 0;
    while i < ins.len()
        invariant
            i <= ins.len(),
            iv == strs(ins@),
            out@ == old(out)@ + numbered(iv.take(i as int)),
        decreases ins.len() - i,
    {
        assert(iv.take(i + 1 as int).drop_last() =~= iv.take(i as int));
        assert(iv.take(i + 1 as int).last() == ins@[i as int]@);
        write_num(out, i + 1);
        append_str(out, ". ");
        append_str(out, ins[i].as_str());
        append_str(out, "\n");
        i += 1;
        assert(out@ =~= old(out)@ + numbered(iv.take(i as int)));
    }
    assert(iv.take(ins.len() as int) =~= iv);
}

fn write_built_block(out: &mut String, ps: &Vec<String>)
    ensures
        final(out)@ == old(out)@ + built_block(strs(ps@)),
{
    if ps.len() > 0 {
        append_str(out, "\n");
        append_str(out, "**Files to scan (built — structural output is authoritative):**\n");
        append_str(out, "\n");
        append_str(
            out,
            "> These files are from modules that compile successfully. The domain-scan structural output is authoritative. Verify the scan results are complete, catalog any patterns the static analysis missed (e.g. runtime registration, reflection-based DI), and document the architecture.\n",
        );
        append_str(out, "\n");
        append_str(out, "```\n");
        write_path_lines(out, ps);
        append_str(out, "```\n");
    }
    assert(out@ =~= old(out)@ + built_block(strs(ps@)));
}

fn write_non_built_block(out: &mut String, ps: &Vec<String>)
    ensures
        final(out)@ == old(out)@ + non_built_block(strs(ps@)),
{
    if ps.len() > 0 {
        append_str(out, "\n");
        append_str(out, "**Files to scan (unbuilt/error/rebuild — best-effort extraction):**\n");
        append_str(out, "\n");
        append_str(
            out,
            "> These files are from modules that do not currently build. The domain-scan output is a best-effort extraction. Read each file carefully. Infer the intended interfaces and services from naming patterns, comments, and partial definitions. Flag conflicts between old and new definitions. Mark your findings with confidence levels.\n",
        );
        append_str(out, "\n");
        append_str(out, "```\n");
        write_path_lines(out, ps);
        append_str(out, "```\n");
    }
    assert(out@ =~= old(out)@ + non_built_block(strs(ps@)));
}

#[verifier::rlimit(40)]
fn write_assignment(out: &mut String, a: &AgentAssignment)
    ensures
        final(out)@ == old(out)@ + assignment_text(a@),
{
    append_str(out, "### Agent ");
    write_num(out, a.id);
    append_str(out, ": ");
    append_str(out, a.title.as_str());
    append_str(out, "\n");
    append_str(out, "**Scope:** ");
    append_str(out, a.scope.as_str());
    append_str(out, "\n");
    let ghost m1 = out@;
    if !a.directory_focus.as_str().is_empty() {
        append_str(out, "**Directory focus:** ");
        append_str(out, a.directory_focus.as_str());
        append_str(out, "\n");
    }
    let ghost m2 = out@;
    append_str(out, "**Instructions:**\n");
    write_numbered(out, &a.instructions);
    write_built_block(out, &a.built_files);
    write_non_built_block(out, &a.non_built_files);
    let ghost m3 = out@;
    if a.built_files.len() == 0 && a.non_built_files.len() == 0 {
        append_str(out, "\n");
        append_str(out, "**Files to scan:** (no files matched this category)\n");
    }
    let ghost m4 = out@;
    append_str(out, "\n");
    assert(out@ =~= old(out)@ + assignment_text(a@));
}

/// Writes the assignments section.
pub fn write_assignments(out: &mut String, assignments: &Vec<AgentAssignment>)
    ensures
        final(out)@ == old(out)@ + "## Sub-Agent Assignments\n"@ + "\n"@ + assignments_text(
            assignments_view(assignments@),
        ),
{
    append_str(out, "## Sub-Agent Assignments\n");
    append_str(out, "\n");
    let ghost start = out@;
    let ghost av = assignments_view(assignments@);
    let mut i: usize = 0;
    while i < assignments.len()
        invariant
            i <= assignments.len(),
            av == assignments_view(assignments@),
            out@ == start + assignments_text(av.take(i as int)),
        decreases assignments.len() - i,
    {
        assert(av.take(i + 1 as int).drop_last() =~= av.take(i as int));
        assert(av.take(i + 1 as int).last() == assignments@[i as int]@);
        write_assignment(out, &assignments[i]);
        i += 1;
        assert(out@ =~= start + assignments_text(av.take(i as int)));
    }
    assert(av.take(assignments.len() as int) =~= av);
    assert(out@ =~= old(out)@ + "## Sub-Agent Assignments\n"@ + "\n"@ + assignments_text(av));
}

// ---------------------------------------------------------------------------
// The prompt
// ---------------------------------------------------------------------------

/// The files a prompt covers: those matching the focus pattern, or all.
pub open spec fn prompt_files(index: ScanIndex, config: PromptConfig) -> Seq<crate::ir::IrFile> {
    match config.focus {
        Some(p) => files_where(index.files@, p@),
        None => index.files@,
    }
}

/// The assignments for the chosen strategy.
pub open spec fn spec_assignments(fs: Seq<crate::ir::IrFile>, agents: nat, root: Seq<char>) -> Seq<AssignmentView> {
    match spec_select_strategy(fs.len()) {
        PartitionStrategy::ByConcern => spec_concern_assignments(fs, agents, root),
        PartitionStrategy::Hybrid => spec_hybrid_assignments(fs, agents, root),
        PartitionStrategy::ByDirectory => spec_directory_assignments(fs, agents, root),
    }
}

/// The whole prompt, given the scan's JSON text when it is embedded.
pub open spec fn prompt_text(index: ScanIndex, config: PromptConfig, json: Seq<char>) -> Seq<char> {
    let fs = prompt_files(index, config);
    header_text(crate::builder::spec_project_name(None, index.root@), index.root@, index.stats)
        + task_text(config.agents as nat) + "## Sub-Agent Assignments\n"@ + "\n"@ + assignments_text(
        spec_assignments(fs, config.agents as nat, index.root@),
    ) + synthesis_text() + (if config.include_scan {
        scan_embed_text(json)
    } else {
        Seq::empty()
    })
}

/// Builds the assignments for a strategy.
pub fn build_assignments(files: &Vec<&crate::ir::IrFile>, strategy: PartitionStrategy, agents: usize, root: &str) -> (r: Vec<AgentAssignment>)
    requires
        files@.len() * 8 < usize::MAX,
        agents < usize::MAX,
        strategy == spec_select_strategy(files@.len()),
    ensures
        assignments_view(r@) == spec_assignments(deref_files(files@), agents as nat, root@),
{
    match strategy {
        PartitionStrategy::ByConcern => build_concern_assignments(files, agents, root),
        PartitionStrategy::Hybrid => build_hybrid_assignments(files, agents, root),
        PartitionStrategy::ByDirectory => build_directory_assignments(files, agents, root),
    }
}

/// Generates the full prompt from a scan index. When the config asks for
/// the scan to be embedded, `scan_json` is the index serialized as JSON,
/// or the serializer's error, which is then the result.
pub fn generate_prompt(index: &ScanIndex, config: &PromptConfig, scan_json: Result<String, String>) -> (r: Result<
    String,
    DomainScanError,
>)
    requires
        index.files@.len() * 8 < usize::MAX,
        config.agents < usize::MAX,
    ensures
        match r {
            Ok(text) => (config.include_scan ==> scan_json is Ok) && text@ == prompt_text(
                *index,
                *config,
                match scan_json {
                    Ok(j) => j@,
                    Err(_) => Seq::empty(),
                },
            ),
            Err(e) => config.include_scan && (scan_json matches Err(m) && e == DomainScanError::Serialization(m)),
        },
{
    let files: Vec<&crate::ir::IrFile> = match &config.focus {
        Some(pattern) => filter_files_by_focus(&index.files, pattern.as_str()),
        None => {
            let mut all: Vec<&crate::ir::IrFile> = Vec::new();
            let mut i: usize = 0;
            while i < index.files.len()
                invariant
                    i <= index.files.len(),
                    deref_files(all@) == index.files@.take(i as int),
                decreases index.files.len() - i,
            {
                let ghost b = deref_files(all@);
                all.push(&index.files[i]);
                assert(deref_files(all@) =~= b.push(index.files@[i as int]));
                i += 1;
                assert(deref_files(all@) =~= index.files@.take(i as int));
            }
            assert(index.files@.take(index.files.len() as int) =~= index.files@);
            all
        },
    };
    proof {
        lemma_files_where_len(index.files@, match &config.focus { Some(p) => p@, None => Seq::empty() });
    }
    let strategy = select_strategy(files.len(), config.agents);
    let assignments = build_assignments(&files, strategy, config.agents, index.root.as_str());
    let project_name = project_name_from_root(index.root.as_str());
    let mut out = String::new();
    write_header(&mut out, project_name.as_str(), index.root.as_str(), &index.stats);
    write_task_section(&mut out, config.agents);
    write_assignments(&mut out, &assignments);
    write_synthesis_section(&mut out);
    let ghost body = out@;
    if config.include_scan {
        match scan_json {
            Ok(j) => {
                write_scan_embed(&mut out, j.as_str());
            },
            Err(m) => {
                return Err(DomainScanError::Serialization(m));
            },
        }
    }
    assert(out@ =~= prompt_text(
        *index,
        *config,
        match scan_json {
            Ok(j) => j@,
            Err(_) => Seq::empty(),
        },
    ));
    Ok(out)
}

proof fn lemma_files_where_len(files: Seq<crate::ir::IrFile>, p: Seq<char>)
    ensures
        files_where(files, p).len() <= files.len(),
    decreases files.len(),
{
    if files.len() > 0 {
        lemma_files_where_len(files.drop_last(), p);
    }
}

} // verus!
