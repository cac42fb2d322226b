use crate::config::{clone_text, groups_of, parse_groups_from_config, resolved_group, Config, Group};
use crate::error::AppError;
use crate::file::FileCommand;
use vstd::prelude::*;

verus! {

/// Whether `fast_glob::glob_match` accepts `path` for `pattern`.
pub uninterp spec fn glob_matches(pattern: Seq<char>, path: Seq<char>) -> bool;

/// Relies on fast_glob::glob_match: whether the path matches depends on the
/// two texts alone.
#[verifier::external_body]
fn glob_match(pattern: &str, path: &str) -> (r: bool)
    ensures
        r == glob_matches(pattern@, path@),
{
    fast_glob::glob_match(pattern, path)
}

pub open spec fn pattern_count(c: Config, g: int) -> int {
    c.groups@[g].1.patterns@.len() as int
}

/// The first pattern of group `g` at or after `p` that matches the file, or
/// the count; `hit(g, p)` tells whether pattern `p` of group `g` matches.
pub open spec fn first_pattern(c: Config, hit: spec_fn(int, int) -> bool, g: int, p: int) -> int
    decreases pattern_count(c, g) - p,
{
    if p < 0 || p >= pattern_count(c, g) {
        pattern_count(c, g)
    } else if hit(g, p) {
        p
    } else {
        first_pattern(c, hit, g, p + 1)
    }
}

/// The first group at or after `g` with a matching pattern, or the count.
pub open spec fn first_group(c: Config, hit: spec_fn(int, int) -> bool, g: int) -> int
    decreases c.groups@.len() - g,
{
    if g < 0 || g >= c.groups@.len() {
        c.groups@.len() as int
    } else if first_pattern(c, hit, g, 0) < pattern_count(c, g) {
        g
    } else {
        first_group(c, hit, g + 1)
    }
}

/// The file commands for one file: one per command of the first matching
/// pattern of the first group that has one; none if no pattern matches.
pub open spec fn commands_for_file(c: Config, hit: spec_fn(int, int) -> bool, f: String) -> Seq<FileCommand> {
    let g = first_group(c, hit, 0);
    if g >= c.groups@.len() {
        Seq::empty()
    } else {
        let rg = resolved_group(c.groups@[g].0, c.groups@[g].1, c.timeout);
        c.groups@[g].1.patterns@[first_pattern(c, hit, g, 0)].1@.map_values(
            |cmd: String|
                FileCommand {
                    filename: f,
                    command: cmd,
                    group_name: rg.name,
                    timeout: rg.timeout,
                    execution_order: rg.execution_order,
                },
        )
    }
}

/// The file commands for the first `n` files, file by file.
pub open spec fn planned_commands(
    c: Config,
    hits: spec_fn(int, int, int) -> bool,
    files: Seq<String>,
    n: int,
) -> Seq<FileCommand>
    decreases n,
{
    if n <= 0 {
        Seq::empty()
    } else {
        planned_commands(c, hits, files, n - 1) + commands_for_file(
            c,
            |g: int, p: int| hits(n - 1, g, p),
            files[n - 1],
        )
    }
}

/// All patterns of all groups, in declaration order.
pub open spec fn all_patterns(c: Config, n: int) -> Seq<String>
    decreases n,
{
    if n <= 0 {
        Seq::empty()
    } else {
        all_patterns(c, n - 1) + c.groups@[n - 1].1.patterns@.map_values(
            |pp: (String, Vec<String>)| pp.0,
        )
    }
}

/// Which patterns match which file, by glob.
pub open spec fn glob_hits(c: Config, files: Seq<String>) -> spec_fn(int, int, int) -> bool {
    |f: int, g: int, p: int|
        0 <= f < files.len() && 0 <= g < c.groups@.len() && 0 <= p < pattern_count(c, g)
            && glob_matches(c.groups@[g].1.patterns@[p].0@, files[f]@)
}

/// The match table as a predicate; false outside it.
pub open spec fn table_hits(t: Seq<Vec<Vec<bool>>>) -> spec_fn(int, int, int) -> bool {
    |f: int, g: int, p: int|
        0 <= f < t.len() && 0 <= g < t[f]@.len() && 0 <= p < t[f]@[g]@.len() && t[f]@[g]@[p]
}

/// The table has a row per file, a row per group in it, and a cell per
/// pattern in that.
pub open spec fn table_fits(c: Config, nfiles: int, t: Seq<Vec<Vec<bool>>>) -> bool {
    &&& t.len() == nfiles
    &&& forall|f: int|
        0 <= f < nfiles ==> {
            &&& (#[trigger] t[f])@.len() == c.groups@.len()
            &&& forall|g: int| 0 <= g < c.groups@.len() ==> (#[trigger] t[f]@[g])@.len() == pattern_count(c, g)
        }
}

/// What matching yields: the file commands, unless there were files and
/// none matched, which is an error that lists every pattern.
pub open spec fn match_result_ok(c: Config, hits: spec_fn(int, int, int) -> bool, files: Seq<String>, r: Result<Vec<FileCommand>, AppError>) -> bool {
    let want = planned_commands(c, hits, files, files.len() as int);
    match r {
        Ok(v) => v@ == want && !(want.len() == 0 && files.len() > 0),
        Err(AppError::NoFilesMatched { patterns }) => want.len() == 0 && files.len() > 0
            && patterns@ == all_patterns(c, c.groups@.len() as int),
        Err(_) => false,
    }
}

fn all_pattern_names(groups: &Vec<Group>, Ghost(c): Ghost<Config>) -> (r: Vec<String>)
    requires
        groups_of(c, groups@),
    ensures
        r@ == all_patterns(c, c.groups@.len() as int),
{
    let mut r: Vec<String> = Vec::new();
    let mut g: usize = 0;
    while g < groups.len()
        invariant
            groups_of(c, groups@),
            g <= groups@.len(),
            r@ == all_patterns(c, g as int),
        decreases groups.len() - g,
    {
        let ghost before = r@;
        let pats = &groups[g].patterns;
        let mut p: usize = 0;
        while p < pats.len()
            invariant
                groups_of(c, groups@),
                g < groups@.len(),
                pats@ == groups@[g as int].patterns@,
                p <= pats@.len(),
                r@ == before + c.groups@[g as int].1.patterns@.take(p as int).map_values(
                    |pp: (String, Vec<String>)| pp.0,
                ),
            decreases pats.len() - p,
        {
            r.push(pats[p].0.clone());
            proof {
                assert(r@ =~= before + c.groups@[g as int].1.patterns@.take(p as int + 1).map_values(
                    |pp: (String, Vec<String>)| pp.0,
                ));
            }
            p = p + 1;
        }
        proof {
            assert(c.groups@[g as int].1.patterns@.take(p as int) =~= c.groups@[g as int].1.patterns@);
        }
        g = g + 1;
    }
    r
}

/// Appends the file commands for one file, given which patterns match it.
fn push_commands_for_file(
    groups: &Vec<Group>,
    file: &String,
    row: &Vec<Vec<bool>>,
    out: &mut Vec<FileCommand>,
    Ghost(c): Ghost<Config>,
    Ghost(hit): Ghost<spec_fn(int, int) -> bool>,
)
    requires
        groups_of(c, groups@),
        row@.len() == c.groups@.len(),
        forall|g: int| 0 <= g < c.groups@.len() ==> (#[trigger] row@[g])@.len() == pattern_count(c, g),
        forall|g: int, p: int| 0 <= g < c.groups@.len() && 0 <= p < pattern_count(c, g) ==> hit(g, p)
            == row@[g]@[p],
    ensures
        final(out)@ == old(out)@ + commands_for_file(c, hit, *file),
{
    let mut g: usize = 0;
    while g < groups.len()
        invariant
            groups_of(c, groups@),
            row@.len() == c.groups@.len(),
            forall|g: int| 0 <= g < c.groups@.len() ==> (#[trigger] row@[g])@.len() == pattern_count(c, g),
            forall|g: int, p: int| 0 <= g < c.groups@.len() && 0 <= p < pattern_count(c, g) ==> hit(g, p)
                == row@[g]@[p],
            g <= groups@.len(),
            first_group(c, hit, g as int) == first_group(c, hit, 0),
            *out == *old(out),
        decreases groups.len() - g,
    {
        let cells = &row[g];
        let mut p: usize = 0;
        while p < cells.len()
            invariant
                groups_of(c, groups@),
                g < groups@.len(),
                row@.len() == c.groups@.len(),
                cells@ == row@[g as int]@,
                first_group(c, hit, g as int) == first_group(c, hit, 0),
                *out == *old(out),
                cells@.len() == pattern_count(c, g as int),
                forall|p: int| 0 <= p < pattern_count(c, g as int) ==> hit(g as int, p) == cells@[p],
                p <= cells@.len(),
                first_pattern(c, hit, g as int, p as int) == first_pattern(c, hit, g as int, 0),
            decreases cells.len() - p,
        {
            if cells[p] {
                let group = &groups[g];
                let cmds = &group.patterns[p].1;
                let ghost base = out@;
                proof {
                    assert(first_group(c, hit, 0) == g as int);
                }
                let mut k: usize = 0;
                while k < cmds.len()
                    invariant
                        groups_of(c, groups@),
                        g < groups@.len(),
                        p < pattern_count(c, g as int),
                        *group == groups@[g as int],
                        cmds@ == c.groups@[g as int].1.patterns@[p as int].1@,
                        k <= cmds@.len(),
                        out@ == base + commands_for_file(c, hit, *file).take(k as int),
                        first_group(c, hit, 0) == g as int,
                        first_pattern(c, hit, g as int, 0) == p as int,
                    decreases cmds.len() - k,
                {
                    out.push(
                        FileCommand {
                            filename: file.clone(),
                            command: cmds[k].clone(),
                            group_name: group.name.clone(),
                            timeout: clone_text(&group.timeout),
                            execution_order: group.execution_order,
                        },
                    );
                    proof {
                        assert(out@ =~= base + commands_for_file(c, hit, *file).take(k as int + 1));
                    }
                    k = k + 1;
                }
                proof {
                    assert(commands_for_file(c, hit, *file).take(k as int) =~= commands_for_file(c, hit, *file));
                }
                return;
            }
            p = p + 1;
        }
        proof {
            assert(first_pattern(c, hit, g as int, 0) == pattern_count(c, g as int));
            assert(first_group(c, hit, g as int) == first_group(c, hit, g as int + 1));
        }
        g = g + 1;
    }
    proof {
        assert(commands_for_file(c, hit, *file) =~= Seq::<FileCommand>::empty());
        assert(out@ =~= old(out)@ + commands_for_file(c, hit, *file));
    }
}

/// Selects the commands for the changed files, given a table that says,
/// for each file, group and pattern, whether the pattern matches the file.
/// Each file takes the commands of the first matching pattern of the first
/// group that has one; a file that matches nothing is skipped. If there
/// were files and none matched, every pattern is reported.
pub fn match_files_with(config: &Config, changed_files: &[String], table: &Vec<Vec<Vec<bool>>>) -> (r: Result<
    Vec<FileCommand>,
    AppError,
>)
    requires
        table_fits(*config, changed_files@.len() as int, table@),
    ensures
        match_result_ok(*config, table_hits(table@), changed_files@, r),
{
    let groups = parse_groups_from_config(config);
    let ghost c = *config;
    let ghost hits = table_hits(table@);
    let mut out: Vec<FileCommand> = Vec::new();
    let mut f: usize = 0;
    while f < changed_files.len()
        invariant
            c == *config,
            hits == table_hits(table@),
            groups_of(c, groups@),
            table_fits(c, changed_files@.len() as int, table@),
            f <= changed_files@.len(),
            out@ == planned_commands(c, hits, changed_files@, f as int),
        decreases changed_files.len() - f,
    {
        let ghost hit = |g: int, p: int| hits(f as int, g, p);
        push_commands_for_file(&groups, &changed_files[f], &table[f], &mut out, Ghost(c), Ghost(hit));
        f = f + 1;
    }
    if out.len() == 0 && changed_files.len() > 0 {
        let patterns = all_pattern_names(&groups, Ghost(c));
        return Err(AppError::NoFilesMatched { patterns });
    }
    Ok(out)
}

/// Selects the commands for the changed files by glob matching, as
/// `match_files_with` does for the table of glob results.
pub fn match_files_to_commands(config: &Config, changed_files: &[String]) -> (r: Result<
    Vec<FileCommand>,
    AppError,
>)
    ensures
        match_result_ok(*config, glob_hits(*config, changed_files@), changed_files@, r),
{
    let mut table: Vec<Vec<Vec<bool>>> = Vec::new();
    let mut f: usize = 0;
    while f < changed_files.len()
        invariant
            f <= changed_files@.len(),
            table_fits(*config, f as int, table@),
            forall|i: int, g: int, p: int| 0 <= i < f && 0 <= g < config.groups@.len() && 0 <= p < pattern_count(*config, g)
                ==> #[trigger] table@[i]@[g]@[p] == glob_matches(config.groups@[g].1.patterns@[p].0@, changed_files@[i]@),
        decreases changed_files.len() - f,
    {
        let mut row: Vec<Vec<bool>> = Vec::new();
        let mut g: usize = 0;
        while g < config.groups.len()
            invariant
                f < changed_files@.len(),
                g <= config.groups@.len(),
                row@.len() == g,
                forall|h: int| 0 <= h < g ==> (#[trigger] row@[h])@.len() == pattern_count(*config, h),
                forall|h: int, p: int| 0 <= h < g && 0 <= p < pattern_count(*config, h)
                    ==> #[trigger] row@[h]@[p] == glob_matches(config.groups@[h].1.patterns@[p].0@, changed_files@[f as int]@),
            decreases config.groups.len() - g,
        {
            let pats = &config.groups[g].1.patterns;
            let mut cells: Vec<bool> = Vec::new();
            let mut p: usize = 0;
            while p < pats.len()
                invariant
                    f < changed_files@.len(),
                    g < config.groups@.len(),
                    pats@ == config.groups@[g as int].1.patterns@,
                    p <= pats@.len(),
                    cells@.len() == p,
                    forall|q: int| 0 <= q < p ==> #[trigger] cells@[q] == glob_matches(pats@[q].0@, changed_files@[f as int]@),
                decreases pats.len() - p,
            {
                cells.push(glob_match(pats[p].0.as_str(), changed_files[f].as_str()));
                p = p + 1;
            }
            row.push(cells);
            g = g + 1;
        }
        table.push(row);
        f = f + 1;
    }
    let r = match_files_with(config, changed_files, &table);
    proof {
        assert(table_hits(table@) =~= glob_hits(*config, changed_files@));
    }
    r
}

} // verus!
