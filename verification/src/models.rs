//! The records that the library reads and produces, with their views.
use vstd::prelude::*;

verus! {

/// The view of an optional string.
pub open spec fn opt_view(o: Option<String>) -> Option<Seq<char>> {
    match o {
        Some(s) => Some(s@),
        None => None,
    }
}

/// A category of the tree: `kind` is expense, income or account.
#[derive(Debug, Clone, PartialEq, Eq)]
pub struct Category {
    pub id: i64,
    pub kind: String,
    pub parent_id: Option<i64>,
    pub name: String,
    pub sort: i64,
}

/// What the front end sends to create or rename a category.
#[derive(Debug, Clone, PartialEq, Eq)]
pub struct CategoryInput {
    pub id: Option<i64>,
    pub kind: String,
    pub parent_id: Option<i64>,
    pub name: String,
    pub sort: Option<i64>,
}

/// A merchant keyword rule: transactions of `kind` whose merchant or goods
/// text holds `keyword` go to `l1` / `l2`.
#[derive(Debug, Clone, PartialEq, Eq)]
pub struct Rule {
    pub id: i64,
    pub keyword: String,
    pub kind: String,
    pub l1: String,
    pub l2: Option<String>,
    pub priority: i64,
    pub enabled: bool,
    pub source: String,
}

pub struct RuleView {
    pub id: i64,
    pub keyword: Seq<char>,
    pub kind: Seq<char>,
    pub l1: Seq<char>,
    pub l2: Option<Seq<char>>,
    pub priority: i64,
    pub enabled: bool,
    pub source: Seq<char>,
}

impl View for Rule {
    type V = RuleView;

    open spec fn view(&self) -> RuleView {
        RuleView {
            id: self.id,
            keyword: self.keyword@,
            kind: self.kind@,
            l1: self.l1@,
            l2: opt_view(self.l2),
            priority: self.priority,
            enabled: self.enabled,
            source: self.source@,
        }
    }
}

/// A rule as a preset file or the front end proposes it.
#[derive(Debug, Clone, PartialEq, Eq)]
pub struct RuleInput {
    pub id: Option<i64>,
    pub keyword: String,
    pub kind: String,
    pub l1: String,
    pub l2: Option<String>,
    pub priority: Option<i64>,
    pub enabled: Option<bool>,
}

pub struct RuleInputView {
    pub id: Option<i64>,
    pub keyword: Seq<char>,
    pub kind: Seq<char>,
    pub l1: Seq<char>,
    pub l2: Option<Seq<char>>,
    pub priority: Option<i64>,
    pub enabled: Option<bool>,
}

impl View for RuleInput {
    type V = RuleInputView;

    open spec fn view(&self) -> RuleInputView {
        RuleInputView {
            id: self.id,
            keyword: self.keyword@,
            kind: self.kind@,
            l1: self.l1@,
            l2: opt_view(self.l2),
            priority: self.priority,
            enabled: self.enabled,
        }
    }
}

/// One entry of a parsed category preset: a first-level category, or a
/// second-level one under `l1`.
#[derive(Debug, Clone, PartialEq, Eq)]
pub struct PresetCategory {
    pub kind: String,
    pub l1: String,
    pub l2: Option<String>,
}

pub struct PresetCategoryView {
    pub kind: Seq<char>,
    pub l1: Seq<char>,
    pub l2: Option<Seq<char>>,
}

impl View for PresetCategory {
    type V = PresetCategoryView;

    open spec fn view(&self) -> PresetCategoryView {
        PresetCategoryView { kind: self.kind@, l1: self.l1@, l2: opt_view(self.l2) }
    }
}

/// What a preset file holds, shown to the user before anything is stored.
#[derive(Debug, Clone, PartialEq, Eq)]
pub struct PresetPreview {
    pub categories: Vec<PresetCategory>,
    pub rules: Vec<RuleInput>,
    pub warnings: Vec<String>,
}

pub struct PresetPreviewView {
    pub categories: Seq<PresetCategoryView>,
    pub rules: Seq<RuleInputView>,
    pub warnings: Seq<Seq<char>>,
}

impl View for PresetPreview {
    type V = PresetPreviewView;

    open spec fn view(&self) -> PresetPreviewView {
        PresetPreviewView {
            categories: self.categories@.map_values(|c: PresetCategory| c@),
            rules: self.rules@.map_values(|r: RuleInput| r@),
            warnings: self.warnings@.map_values(|w: String| w@),
        }
    }
}

/// Per-sheet counters of an import.
#[derive(Debug, Clone, PartialEq, Eq)]
pub struct SheetStat {
    pub sheet: String,
    pub rows: i64,
    pub inserted: i64,
    pub duplicates: i64,
}

/// The outcome of importing one file.
#[derive(Debug, Clone, PartialEq, Eq)]
pub struct ImportReport {
    pub file: String,
    pub detected_format: String,
    pub total_rows: i64,
    pub inserted: i64,
    pub duplicates: i64,
    pub skipped: i64,
    pub pending: i64,
    pub pending_merchants: Vec<String>,
    pub sheet_stats: Vec<SheetStat>,
    pub batch_id: String,
}

/// The category that the user gives to all pending rows of a merchant.
#[derive(Debug, Clone, PartialEq, Eq)]
pub struct MerchantAssign {
    pub merchant: String,
    pub l1: String,
    pub l2: Option<String>,
}


/// The text fields of a transaction (its amount is kept beside it by the
/// caller): type (支出/收入/转账/报销/代付/余额变更/债权变更), time
/// "YYYY-MM-DD HH:MM:SS", categories, accounts and notes.
#[derive(Debug, Clone, PartialEq, Eq)]
pub struct TxFields {
    pub tx_type: String,
    pub tx_time: String,
    pub l1: Option<String>,
    pub l2: Option<String>,
    pub l3: Option<String>,
    pub account_out: Option<String>,
    pub account_in: Option<String>,
    pub currency: Option<String>,
    pub member: Option<String>,
    pub merchant: Option<String>,
    pub project_category: Option<String>,
    pub project: Option<String>,
    pub booker: Option<String>,
    pub remark: Option<String>,
    pub tx_no: Option<String>,
    pub source: Option<String>,
    pub source_file: Option<String>,
}

pub struct TxFieldsView {
    pub tx_type: Seq<char>,
    pub tx_time: Seq<char>,
    pub l1: Option<Seq<char>>,
    pub l2: Option<Seq<char>>,
    pub l3: Option<Seq<char>>,
    pub account_out: Option<Seq<char>>,
    pub account_in: Option<Seq<char>>,
    pub currency: Option<Seq<char>>,
    pub member: Option<Seq<char>>,
    pub merchant: Option<Seq<char>>,
    pub project_category: Option<Seq<char>>,
    pub project: Option<Seq<char>>,
    pub booker: Option<Seq<char>>,
    pub remark: Option<Seq<char>>,
    pub tx_no: Option<Seq<char>>,
    pub source: Option<Seq<char>>,
    pub source_file: Option<Seq<char>>,
}

impl View for TxFields {
    type V = TxFieldsView;

    open spec fn view(&self) -> TxFieldsView {
        TxFieldsView {
            tx_type: self.tx_type@,
            tx_time: self.tx_time@,
            l1: opt_view(self.l1),
            l2: opt_view(self.l2),
            l3: opt_view(self.l3),
            account_out: opt_view(self.account_out),
            account_in: opt_view(self.account_in),
            currency: opt_view(self.currency),
            member: opt_view(self.member),
            merchant: opt_view(self.merchant),
            project_category: opt_view(self.project_category),
            project: opt_view(self.project),
            booker: opt_view(self.booker),
            remark: opt_view(self.remark),
            tx_no: opt_view(self.tx_no),
            source: opt_view(self.source),
            source_file: opt_view(self.source_file),
        }
    }
}

/// The filter of the transaction list and of exports. The amount bounds
/// are the texts that stand in the query for them (the caller writes the
/// numbers); `page` and `page_size` choose the window of the list.
#[derive(Debug, Clone, PartialEq, Eq)]
pub struct TxFilter {
    pub tx_type: Option<String>,
    pub l1: Option<String>,
    pub l2: Option<String>,
    pub merchant: Option<String>,
    pub keyword: Option<String>,
    pub date_from: Option<String>,
    pub date_to: Option<String>,
    pub min_amount: Option<String>,
    pub max_amount: Option<String>,
    pub page: i64,
    pub page_size: i64,
}

} // verus!
