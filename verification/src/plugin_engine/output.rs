//! What a plugin reports of an account.

use crate::plugin_engine::js_value::Number;
use crate::plugin_engine::manifest::LoadedPlugin;
use crate::provider_watch::FileSubscription;
use crate::text::{clone_opt, opt_view, same};
use vstd::prelude::*;

verus! {

/// How the numbers of a progress line are shown.
#[derive(Debug, PartialEq, Eq)]
pub enum ProgressFormat {
    Percent,
    Dollars,
    Count { suffix: String },
}

/// A line of a report.
#[derive(Debug, PartialEq, Eq)]
pub enum MetricLine {
    Text { label: String, value: String, color: Option<String>, subtitle: Option<String> },
    Progress {
        label: String,
        used: Number,
        limit: Number,
        format: ProgressFormat,
        resets_at: Option<String>,
        period_duration_ms: Option<u64>,
        color: Option<String>,
    },
    Badge { label: String, text: String, color: Option<String>, subtitle: Option<String> },
}

/// The account that a report speaks of.
#[derive(Debug, PartialEq, Eq, Hash)]
pub struct AccountRef {
    pub id: String,
    pub origin: String,
    pub is_active: bool,
    pub name: Option<String>,
}

/// The report of a plugin on one account.
#[derive(Debug, PartialEq, Eq)]
pub struct PluginOutput {
    pub provider_id: String,
    pub display_name: String,
    pub plan: Option<String>,
    pub lines: Vec<MetricLine>,
    pub icon_url: String,
    pub account: AccountRef,
}

/// What came of a run of a plugin: its reports, and the files it subscribed to.
#[derive(Debug)]
pub struct ProbeResult {
    pub outputs: Vec<PluginOutput>,
    pub subscriptions: Vec<FileSubscription>,
}

/// How the numbers of a progress line are shown, as values.
pub enum FormatView {
    Percent,
    Dollars,
    Count { suffix: Seq<char> },
}

/// A line of a report, as values.
pub enum LineView {
    Text {
        label: Seq<char>,
        value: Seq<char>,
        color: Option<Seq<char>>,
        subtitle: Option<Seq<char>>,
    },
    Progress {
        label: Seq<char>,
        used: Number,
        limit: Number,
        format: FormatView,
        resets_at: Option<Seq<char>>,
        period_duration_ms: Option<u64>,
        color: Option<Seq<char>>,
    },
    Badge {
        label: Seq<char>,
        text: Seq<char>,
        color: Option<Seq<char>>,
        subtitle: Option<Seq<char>>,
    },
}

/// An account, as values.
pub struct AccountView {
    pub id: Seq<char>,
    pub origin: Seq<char>,
    pub is_active: bool,
    pub name: Option<Seq<char>>,
}

/// A report, as values.
#[verifier::ext_equal]
pub struct OutputView {
    pub provider_id: Seq<char>,
    pub display_name: Seq<char>,
    pub plan: Option<Seq<char>>,
    pub lines: Seq<LineView>,
    pub icon_url: Seq<char>,
    pub account: AccountView,
}

impl View for ProgressFormat {
    type V = FormatView;

    open spec fn view(&self) -> FormatView {
        match self {
            ProgressFormat::Percent => FormatView::Percent,
            ProgressFormat::Dollars => FormatView::Dollars,
            ProgressFormat::Count { suffix } => FormatView::Count { suffix: suffix@ },
        }
    }
}

impl View for MetricLine {
    type V = LineView;

    open spec fn view(&self) -> LineView {
        match self {
            MetricLine::Text { label, value, color, subtitle } => LineView::Text {
                label: label@,
                value: value@,
                color: opt_view(*color),
                subtitle: opt_view(*subtitle),
            },
            MetricLine::Progress {
                label,
                used,
                limit,
                format,
                resets_at,
                period_duration_ms,
                color,
            } => LineView::Progress {
                label: label@,
                used: *used,
                limit: *limit,
                format: format@,
                resets_at: opt_view(*resets_at),
                period_duration_ms: *period_duration_ms,
                color: opt_view(*color),
            },
            MetricLine::Badge { label, text, color, subtitle } => LineView::Badge {
                label: label@,
                text: text@,
                color: opt_view(*color),
                subtitle: opt_view(*subtitle),
            },
        }
    }
}

impl View for AccountRef {
    type V = AccountView;

    open spec fn view(&self) -> AccountView {
        AccountView {
            id: self.id@,
            origin: self.origin@,
            is_active: self.is_active,
            name: opt_view(self.name),
        }
    }
}

/// The lines of a report as values.
pub open spec fn line_views(lines: Seq<MetricLine>) -> Seq<LineView> {
    lines.map_values(|l: MetricLine| l@)
}

impl View for PluginOutput {
    type V = OutputView;

    open spec fn view(&self) -> OutputView {
        OutputView {
            provider_id: self.provider_id@,
            display_name: self.display_name@,
            plan: opt_view(self.plan),
            lines: line_views(self.lines@),
            icon_url: self.icon_url@,
            account: self.account@,
        }
    }
}

/// Reports as values.
pub open spec fn output_views(outputs: Seq<PluginOutput>) -> Seq<OutputView> {
    outputs.map_values(|o: PluginOutput| o@)
}

impl Clone for ProgressFormat {
    fn clone(&self) -> (r: Self)
        ensures
            r@ == self@,
    {
        match self {
            ProgressFormat::Percent => ProgressFormat::Percent,
            ProgressFormat::Dollars => ProgressFormat::Dollars,
            ProgressFormat::Count { suffix } => ProgressFormat::Count { suffix: suffix.clone() },
        }
    }
}

impl Clone for MetricLine {
    fn clone(&self) -> (r: Self)
        ensures
            r@ == self@,
    {
        match self {
            MetricLine::Text { label, value, color, subtitle } => MetricLine::Text {
                label: label.clone(),
                value: value.clone(),
                color: clone_opt(color),
                subtitle: clone_opt(subtitle),
            },
            MetricLine::Progress {
                label,
                used,
                limit,
                format,
                resets_at,
                period_duration_ms,
                color,
            } => MetricLine::Progress {
                label: label.clone(),
                used: used.clone(),
                limit: limit.clone(),
                format: format.clone(),
                resets_at: clone_opt(resets_at),
                period_duration_ms: *period_duration_ms,
                color: clone_opt(color),
            },
            MetricLine::Badge { label, text, color, subtitle } => MetricLine::Badge {
                label: label.clone(),
                text: text.clone(),
                color: clone_opt(color),
                subtitle: clone_opt(subtitle),
            },
        }
    }
}

impl Clone for AccountRef {
    fn clone(&self) -> (r: Self)
        ensures
            r@ == self@,
    {
        AccountRef {
            id: self.id.clone(),
            origin: self.origin.clone(),
            is_active: self.is_active,
            name: clone_opt(&self.name),
        }
    }
}

/// Copies of the lines of a report.
pub(crate) fn clone_lines(lines: &Vec<MetricLine>) -> (r: Vec<MetricLine>)
    ensures
        line_views(r@) == line_views(lines@),
{
    let mut out: Vec<MetricLine> = Vec::new();
    let mut i: usize = 0;
    while i < lines.len()
        invariant
            i <= lines@.len(),
            line_views(out@) == line_views(lines@).take(i as int),
        decreases lines@.len() - i,
    {
        let ghost before = out@;
        out.push(lines[i].clone());
        assert(line_views(out@) =~= line_views(before).push(lines@[i as int]@));
        assert(line_views(lines@).take(i + 1) =~= line_views(lines@).take(i as int).push(
            lines@[i as int]@,
        ));
        i = i + 1;
    }
    assert(line_views(lines@).take(lines@.len() as int) =~= line_views(lines@));
    out
}

impl Clone for PluginOutput {
    fn clone(&self) -> (r: Self)
        ensures
            r@ == self@,
    {
        PluginOutput {
            provider_id: self.provider_id.clone(),
            display_name: self.display_name.clone(),
            plan: clone_opt(&self.plan),
            lines: clone_lines(&self.lines),
            icon_url: self.icon_url.clone(),
            account: self.account.clone(),
        }
    }
}

/// The account of plugins that know of none.
pub open spec fn default_account_view() -> AccountView {
    AccountView { id: "default"@, origin: "native"@, is_active: true, name: None }
}

impl AccountRef {
    /// The account of plugins that know of none.
    pub fn default_account() -> (r: Self)
        ensures
            r@ == default_account_view(),
    {
        AccountRef {
            id: "default".to_string(),
            origin: "native".to_string(),
            is_active: true,
            name: None,
        }
    }
}

impl Default for AccountRef {
    fn default() -> (r: Self)
        ensures
            r@ == default_account_view(),
    {
        AccountRef::default_account()
    }
}

/// A line of a report as text.
pub open spec fn line_text(line: LineView) -> Seq<char> {
    match line {
        LineView::Text { label, value, color, subtitle } => label + ": "@ + value,
        LineView::Progress {
            label,
            used,
            limit,
            format,
            resets_at,
            period_duration_ms,
            color,
        } => label + ": "@ + used.text@ + "/"@ + limit.text@,
        LineView::Badge { label, text, color, subtitle } => label + ": "@ + text,
    }
}

impl MetricLine {
    /// The line as text.
    pub fn display(&self) -> (r: String)
        ensures
            r@ == line_text(self@),
    {
        match self {
            MetricLine::Text { label, value, color, subtitle } => {
                let mut out = label.clone();
                out.append(": ");
                out.append(value.as_str());
                out
            },
            MetricLine::Progress {
                label,
                used,
                limit,
                format,
                resets_at,
                period_duration_ms,
                color,
            } => {
                let mut out = label.clone();
                out.append(": ");
                out.append(used.text.as_str());
                out.append("/");
                out.append(limit.text.as_str());
                out
            },
            MetricLine::Badge { label, text, color, subtitle } => {
                let mut out = label.clone();
                out.append(": ");
                out.append(text.as_str());
                out
            },
        }
    }
}

/// The line that reports an error.
pub open spec fn error_line_view(message: Seq<char>) -> LineView {
    LineView::Badge {
        label: "Error"@,
        text: message,
        color: Some("#ef4444"@),
        subtitle: None,
    }
}

/// The line that reports an error.
pub fn error_line(message: String) -> (r: MetricLine)
    ensures
        r@ == error_line_view(message@),
{
    MetricLine::Badge {
        label: "Error".to_string(),
        text: message,
        color: Some("#ef4444".to_string()),
        subtitle: None,
    }
}

/// A list of one error line.
pub(crate) fn only_error_line(message: String) -> (r: Vec<MetricLine>)
    ensures
        line_views(r@) == seq![error_line_view(message@)],
{
    let mut lines: Vec<MetricLine> = Vec::new();
    let ghost text = message@;
    lines.push(error_line(message));
    assert(line_views(lines@) =~= seq![error_line_view(text)]);
    lines
}

/// The report that a plugin failed for an account.
pub open spec fn error_report(
    plugin: LoadedPlugin,
    message: Seq<char>,
    account: AccountView,
) -> OutputView {
    OutputView {
        provider_id: plugin.manifest.id@,
        display_name: plugin.manifest.name@,
        plan: None,
        lines: seq![error_line_view(message)],
        icon_url: plugin.icon_data_url@,
        account,
    }
}

/// The report that a plugin failed for an account.
pub fn error_output_with_account(
    plugin: &LoadedPlugin,
    message: String,
    account: &AccountRef,
) -> (r: PluginOutput)
    ensures
        r@ == error_report(*plugin, message@, account@),
{
    PluginOutput {
        provider_id: plugin.manifest.id.clone(),
        display_name: plugin.manifest.name.clone(),
        plan: None,
        lines: only_error_line(message),
        icon_url: plugin.icon_data_url.clone(),
        account: account.clone(),
    }
}

/// The report that a plugin failed before it knew of an account.
pub fn error_output(plugin: &LoadedPlugin, message: String) -> (r: PluginOutput)
    ensures
        r@ == error_report(*plugin, message@, default_account_view()),
{
    let account = AccountRef::default_account();
    error_output_with_account(plugin, message, &account)
}

/// True if a line reports an error.
pub open spec fn is_error_line(line: LineView) -> bool {
    line matches LineView::Badge { label, .. } && label == "Error"@
}

/// True if a report holds an error.
pub open spec fn is_error_report(output: OutputView) -> bool {
    exists|i: int| 0 <= i < output.lines.len() && #[trigger] is_error_line(output.lines[i])
}

/// True if a report holds an error.
pub fn has_error_line(output: &PluginOutput) -> (r: bool)
    ensures
        r == is_error_report(output@),
{
    let mut i: usize = 0;
    while i < output.lines.len()
        invariant
            i <= output.lines@.len(),
            forall|j: int| 0 <= j < i ==> !#[trigger] is_error_line(output@.lines[j]),
        decreases output.lines@.len() - i,
    {
        let is_error = match &output.lines[i] {
            MetricLine::Badge { label, text, color, subtitle } => same(label.as_str(), "Error"),
            _ => false,
        };
        assert(output@.lines[i as int] == output.lines@[i as int]@);
        if is_error {
            assert(is_error_line(output@.lines[i as int]));
            return true;
        }
        i = i + 1;
    }
    false
}

/// A failure is always reported as an error, with the reason.
pub proof fn law_error_report_is_an_error(
    plugin: LoadedPlugin,
    message: Seq<char>,
    account: AccountView,
)
    ensures
        is_error_report(error_report(plugin, message, account)),
        error_report(plugin, message, account).lines.len() == 1,
{
    assert(is_error_line(error_report(plugin, message, account).lines[0]));
}

} // verus!
