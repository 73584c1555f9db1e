//! The form in which a goal is set: an objective, a kind of budget, and its value.

use vstd::prelude::*;

use crate::session_picker::KeyModifiers;
use crate::spans;
use crate::spans::Span;
use crate::spans::Tone;
use crate::text;

verus! {

/// What a goal is limited by.
#[derive(Clone, Copy, Debug, PartialEq, Eq, Structural)]
pub enum GoalBudgetKind {
    Unlimited,
    Tokens,
    FiveHourLimit,
}

/// The field that keys go to.
#[derive(Clone, Copy, Debug, PartialEq, Eq, Structural)]
pub enum GoalSetupFocus {
    Objective,
    Budget,
    Value,
}

/// How the form was left.
#[derive(Clone, Copy, Debug, PartialEq, Eq, Structural)]
pub enum ViewCompletion {
    Accepted,
    Cancelled,
}

/// A budget as it is set. A percentage is a floating-point number, kept by its bits.
#[derive(Clone, Copy, Debug, PartialEq, Eq, Structural)]
pub enum GoalBudgetParams {
    Tokens { token_budget: i64 },
    FiveHourLimitPercent { percent_bits: u64 },
}

/// A goal as it is set.
#[derive(Debug)]
pub struct GoalSubmission {
    pub objective: String,
    pub budget: Option<GoalBudgetParams>,
}

/// The form, but for what is typed into it.
#[derive(Debug)]
pub struct GoalSetupView {
    pub budget_kind: GoalBudgetKind,
    pub focus: GoalSetupFocus,
    pub error: Option<String>,
    pub completion: Option<ViewCompletion>,
}

/// A key of the form.
#[derive(Clone, Copy, Debug, PartialEq, Eq, Structural)]
pub enum GoalKey {
    Esc,
    Tab,
    Enter,
    Left,
    Right,
    Space,
    Other,
}

/// What is left to do with a key.
#[derive(Clone, Copy, Debug, PartialEq, Eq, Structural)]
pub enum GoalKeyOutcome {
    Done,
    Submit,
    InputObjective,
    InputValue,
}

/// The kind of budget after a kind.
pub open spec fn next_kind(kind: GoalBudgetKind) -> GoalBudgetKind {
    match kind {
        GoalBudgetKind::Unlimited => GoalBudgetKind::Tokens,
        GoalBudgetKind::Tokens => GoalBudgetKind::FiveHourLimit,
        GoalBudgetKind::FiveHourLimit => GoalBudgetKind::Unlimited,
    }
}

/// The field after a field; without a budget there is no value.
pub open spec fn next_focus(focus: GoalSetupFocus, kind: GoalBudgetKind) -> GoalSetupFocus {
    match focus {
        GoalSetupFocus::Objective => GoalSetupFocus::Budget,
        GoalSetupFocus::Budget => if kind == GoalBudgetKind::Unlimited {
            GoalSetupFocus::Objective
        } else {
            GoalSetupFocus::Value
        },
        GoalSetupFocus::Value => GoalSetupFocus::Objective,
    }
}

/// What a key does to a form without an error, and what is left to do with it.
pub open spec fn key_response(
    kind: GoalBudgetKind,
    focus: GoalSetupFocus,
    completion: Option<ViewCompletion>,
    key: GoalKey,
    no_modifiers: bool,
) -> (GoalBudgetKind, GoalSetupFocus, Option<ViewCompletion>, GoalKeyOutcome) {
    let cycles = focus == GoalSetupFocus::Budget && ((key == GoalKey::Enter && no_modifiers) || key
        == GoalKey::Left || key == GoalKey::Right || key == GoalKey::Space);
    if key == GoalKey::Esc {
        (kind, focus, Some(ViewCompletion::Cancelled), GoalKeyOutcome::Done)
    } else if key == GoalKey::Tab {
        (kind, next_focus(focus, kind), completion, GoalKeyOutcome::Done)
    } else if cycles {
        (next_kind(kind), focus, completion, GoalKeyOutcome::Done)
    } else if key == GoalKey::Enter && no_modifiers {
        (kind, focus, completion, GoalKeyOutcome::Submit)
    } else {
        (
            kind,
            focus,
            completion,
            match focus {
                GoalSetupFocus::Objective => GoalKeyOutcome::InputObjective,
                GoalSetupFocus::Value => GoalKeyOutcome::InputValue,
                GoalSetupFocus::Budget => GoalKeyOutcome::Done,
            },
        )
    }
}

/// The rows of the objective: as many as it needs, within limits.
pub open spec fn objective_rows(desired: int) -> int {
    if desired < 2 {
        2
    } else if desired > 6 {
        6
    } else {
        desired
    }
}

/// A sum of rows, as far as it can be counted.
pub open spec fn rows_sum(a: int, b: int) -> int {
    if a + b > u16::MAX {
        u16::MAX as int
    } else {
        a + b
    }
}

fn below(y: u16, rows: u16) -> (r: u16)
    ensures
        r == rows_sum(y as int, rows as int),
{
    if y > u16::MAX - rows {
        u16::MAX
    } else {
        y + rows
    }
}

/// What stands in a row of the form.
#[derive(Clone, Copy, Debug, PartialEq, Eq, Structural)]
pub enum GoalRowKind {
    Title,
    Budget,
    ValueLabel,
    Value,
    ObjectiveLabel,
    Objective,
    Error,
    Hint,
}

/// Rows of the form.
#[derive(Clone, Copy, Debug, PartialEq, Eq, Structural)]
pub struct GoalRow {
    pub kind: GoalRowKind,
    pub y: u16,
    pub height: u16,
}

/// A row of the form.
pub open spec fn goal_row(kind: GoalRowKind, y: int, height: int) -> GoalRow {
    GoalRow { kind, y: y as u16, height: height as u16 }
}

/// The rows of a form from the top of a space on: the value only with a budget, the error
/// only where there is one, and the hint only where it fits.
pub open spec fn form_rows(
    kind: GoalBudgetKind,
    has_error: bool,
    y: int,
    height: int,
    objective: int,
) -> Seq<GoalRow> {
    let top = seq![
        goal_row(GoalRowKind::Title, y, 1),
        goal_row(GoalRowKind::Budget, rows_sum(y, 1), 1),
    ];
    let y2 = rows_sum(rows_sum(y, 1), 1);
    let value = if kind == GoalBudgetKind::Unlimited {
        Seq::empty()
    } else {
        seq![
            goal_row(GoalRowKind::ValueLabel, y2, 1),
            goal_row(GoalRowKind::Value, rows_sum(y2, 1), 1),
        ]
    };
    let y3 = if kind == GoalBudgetKind::Unlimited {
        y2
    } else {
        rows_sum(rows_sum(y2, 1), 1)
    };
    let y4 = rows_sum(y3, 1);
    let y5 = rows_sum(y4, objective);
    let error = if has_error {
        seq![goal_row(GoalRowKind::Error, y5, 1)]
    } else {
        Seq::empty()
    };
    let y6 = if has_error {
        rows_sum(y5, 1)
    } else {
        y5
    };
    let hint_y = rows_sum(y6, 1);
    let hint = if hint_y < rows_sum(y, height) {
        seq![goal_row(GoalRowKind::Hint, hint_y, 1)]
    } else {
        Seq::empty()
    };
    top + value + seq![
        goal_row(GoalRowKind::ObjectiveLabel, y3, 1),
        goal_row(GoalRowKind::Objective, y4, objective),
    ] + error + hint
}

/// A space on the screen.
#[derive(Clone, Copy, Debug, PartialEq, Eq, Structural)]
pub struct Rect {
    pub x: u16,
    pub y: u16,
    pub width: u16,
    pub height: u16,
}

impl GoalSetupView {
    /// Whether the value has the focus only where there is a budget.
    pub open spec fn wf(&self) -> bool {
        self.focus == GoalSetupFocus::Value ==> self.budget_kind != GoalBudgetKind::Unlimited
    }

    /// An empty form.
    pub fn new() -> (r: Self)
        ensures
            r.wf(),
            r.budget_kind == GoalBudgetKind::Unlimited && r.focus == GoalSetupFocus::Objective,
            r.error is None && r.completion is None,
    {
        GoalSetupView {
            budget_kind: GoalBudgetKind::Unlimited,
            focus: GoalSetupFocus::Objective,
            error: None,
            completion: None,
        }
    }

    /// Submits the form: with what was typed as the objective, and what the value was read as.
    pub fn submit(&mut self, objective: &str, budget: Result<Option<GoalBudgetParams>, String>)
        -> (r: Option<GoalSubmission>)
        ensures
            final(self).budget_kind == old(self).budget_kind,
            final(self).focus == old(self).focus,
            if text::trim(objective@).len() == 0 {
                r is None && final(self).completion == old(self).completion && text::option_view(
                    final(self).error,
                ) == Some("Goal objective must not be empty."@)
            } else {
                match budget {
                    Ok(b) => {
                        &&& r matches Some(s)
                        &&& s.objective@ == text::trim(objective@)
                        &&& s.budget == b
                        &&& final(self).completion == Some(ViewCompletion::Accepted)
                        &&& final(self).error == old(self).error
                    },
                    Err(e) => r is None && final(self).completion == old(self).completion
                        && final(self).error == Some(e),
                }
            },
    {
        let trimmed = text::trim_str(objective);
        if text::chars_of(trimmed.as_str()).len() == 0 {
            self.error = Some("Goal objective must not be empty.".to_owned());
            return None;
        }
        match budget {
            Ok(budget) => {
                self.completion = Some(ViewCompletion::Accepted);
                Some(GoalSubmission { objective: trimmed, budget })
            },
            Err(e) => {
                self.error = Some(e);
                None
            },
        }
    }

    /// Goes on to the next kind of budget.
    pub fn cycle_budget(&mut self)
        ensures
            final(self).budget_kind == next_kind(old(self).budget_kind),
            final(self).focus == if final(self).budget_kind == GoalBudgetKind::Unlimited && old(self).focus == GoalSetupFocus::Value {
                GoalSetupFocus::Budget
            } else {
                old(self).focus
            },
            final(self).error is None,
            final(self).completion == old(self).completion,
            final(self).wf() || !old(self).wf(),
    {
        self.budget_kind = match self.budget_kind {
            GoalBudgetKind::Unlimited => GoalBudgetKind::Tokens,
            GoalBudgetKind::Tokens => GoalBudgetKind::FiveHourLimit,
            GoalBudgetKind::FiveHourLimit => GoalBudgetKind::Unlimited,
        };
        if self.budget_kind == GoalBudgetKind::Unlimited && self.focus == GoalSetupFocus::Value {
            self.focus = GoalSetupFocus::Budget;
        }
        self.error = None;
    }

    /// Goes on to the next field.
    pub fn cycle_focus(&mut self)
        ensures
            *final(self) == (GoalSetupView {
                focus: next_focus(old(self).focus, old(self).budget_kind),
                ..*old(self)
            }),
            final(self).wf(),
    {
        self.focus = match self.focus {
            GoalSetupFocus::Objective => GoalSetupFocus::Budget,
            GoalSetupFocus::Budget => if self.budget_kind == GoalBudgetKind::Unlimited {
                GoalSetupFocus::Objective
            } else {
                GoalSetupFocus::Value
            },
            GoalSetupFocus::Value => GoalSetupFocus::Objective,
        };
    }

    /// How the kind of budget is shown.
    pub fn budget_label(&self) -> (r: &'static str)
        ensures
            r@ == match self.budget_kind {
                GoalBudgetKind::Unlimited => "None"@,
                GoalBudgetKind::Tokens => "Tokens"@,
                GoalBudgetKind::FiveHourLimit => "5h limit"@,
            },
    {
        match self.budget_kind {
            GoalBudgetKind::Unlimited => "None",
            GoalBudgetKind::Tokens => "Tokens",
            GoalBudgetKind::FiveHourLimit => "5h limit",
        }
    }

    /// What a value may look like.
    pub fn value_placeholder(&self) -> (r: &'static str)
        ensures
            r@ == match self.budget_kind {
                GoalBudgetKind::Unlimited => ""@,
                GoalBudgetKind::Tokens => "500000 or 500k"@,
                GoalBudgetKind::FiveHourLimit => "10%"@,
            },
    {
        match self.budget_kind {
            GoalBudgetKind::Unlimited => "",
            GoalBudgetKind::Tokens => "500000 or 500k",
            GoalBudgetKind::FiveHourLimit => "10%",
        }
    }

    /// Answers a key. The error of an earlier key is gone with it.
    pub fn handle_key_event(&mut self, key: GoalKey, modifiers: KeyModifiers) -> (r: GoalKeyOutcome)
        requires
            old(self).wf(),
        ensures
            final(self).wf(),
            final(self).error is None,
            (final(self).budget_kind, final(self).focus, final(self).completion, r)
                == key_response(
                old(self).budget_kind,
                old(self).focus,
                old(self).completion,
                key,
                !modifiers.control && !modifiers.alt && !modifiers.shift && !modifiers.other,
            ),
    {
        let no_modifiers = !modifiers.control && !modifiers.alt && !modifiers.shift
            && !modifiers.other;
        self.error = None;
        if key == GoalKey::Esc {
            self.completion = Some(ViewCompletion::Cancelled);
            return GoalKeyOutcome::Done;
        }
        if key == GoalKey::Tab {
            self.cycle_focus();
            return GoalKeyOutcome::Done;
        }
        if self.focus == GoalSetupFocus::Budget && ((key == GoalKey::Enter && no_modifiers) || key
            == GoalKey::Left || key == GoalKey::Right || key == GoalKey::Space) {
            self.cycle_budget();
            return GoalKeyOutcome::Done;
        }
        if key == GoalKey::Enter && no_modifiers {
            return GoalKeyOutcome::Submit;
        }
        match self.focus {
            GoalSetupFocus::Objective => GoalKeyOutcome::InputObjective,
            GoalSetupFocus::Value => GoalKeyOutcome::InputValue,
            GoalSetupFocus::Budget => GoalKeyOutcome::Done,
        }
    }

    /// Where pasted text goes, if anywhere.
    pub fn handle_paste(&self, pasted: &str) -> (r: Option<GoalSetupFocus>)
        ensures
            r == if pasted@.len() == 0 || self.focus == GoalSetupFocus::Budget {
                None
            } else {
                Some(self.focus)
            },
    {
        if text::chars_of(pasted).len() == 0 || self.focus == GoalSetupFocus::Budget {
            None
        } else {
            Some(self.focus)
        }
    }

    /// Whether the form was left.
    pub fn is_complete(&self) -> (r: bool)
        ensures
            r == self.completion is Some,
    {
        self.completion.is_some()
    }

    /// The rows of the objective.
    pub fn objective_height(&self, desired: u16) -> (r: u16)
        ensures
            r == objective_rows(desired as int),
    {
        if desired < 2 {
            2
        } else if desired > 6 {
            6
        } else {
            desired
        }
    }

    /// The rows that the form needs.
    pub fn desired_height(&self, desired_objective: u16) -> (r: u16)
        ensures
            r == 6 + objective_rows(desired_objective as int) + (if self.budget_kind
                == GoalBudgetKind::Unlimited {
                0int
            } else {
                2int
            }) + (if self.error is Some {
                1int
            } else {
                0int
            }),
    {
        let value_rows: u16 = if self.budget_kind == GoalBudgetKind::Unlimited {
            0
        } else {
            2
        };
        let error_rows: u16 = if self.error.is_some() {
            1
        } else {
            0
        };
        6 + self.objective_height(desired_objective) + value_rows + error_rows
    }

    /// The rows of the form in a space.
    pub fn rows(&self, area: Rect, desired_objective: u16) -> (r: Vec<GoalRow>)
        ensures
            r@ == if area.height == 0 || area.width == 0 {
                Seq::empty()
            } else {
                form_rows(
                    self.budget_kind,
                    self.error is Some,
                    area.y as int,
                    area.height as int,
                    objective_rows(desired_objective as int),
                )
            },
    {
        let mut rows: Vec<GoalRow> = Vec::new();
        if area.height == 0 || area.width == 0 {
            return rows;
        }
        let mut y = area.y;
        rows.push(GoalRow { kind: GoalRowKind::Title, y, height: 1 });
        y = below(y, 1);
        rows.push(GoalRow { kind: GoalRowKind::Budget, y, height: 1 });
        y = below(y, 1);
        if self.budget_kind != GoalBudgetKind::Unlimited {
            rows.push(GoalRow { kind: GoalRowKind::ValueLabel, y, height: 1 });
            y = below(y, 1);
            rows.push(GoalRow { kind: GoalRowKind::Value, y, height: 1 });
            y = below(y, 1);
        }
        rows.push(GoalRow { kind: GoalRowKind::ObjectiveLabel, y, height: 1 });
        y = below(y, 1);
        let objective = self.objective_height(desired_objective);
        rows.push(GoalRow { kind: GoalRowKind::Objective, y, height: objective });
        y = below(y, objective);
        if self.error.is_some() {
            rows.push(GoalRow { kind: GoalRowKind::Error, y, height: 1 });
            y = below(y, 1);
        }
        let hint_y = below(y, 1);
        if hint_y < below(area.y, area.height) {
            rows.push(GoalRow { kind: GoalRowKind::Hint, y: hint_y, height: 1 });
        }
        assert(rows@ =~= form_rows(
            self.budget_kind,
            self.error is Some,
            area.y as int,
            area.height as int,
            objective_rows(desired_objective as int),
        ));
        rows
    }

    /// The space of the field that the cursor is in, right of the gutter; none where there is
    /// no room for one, or the field is not typed into.
    pub fn cursor_area(&self, area: Rect, desired_objective: u16) -> (r: Option<Rect>)
        requires
            area.width > 2 && self.focus == GoalSetupFocus::Objective ==> area.y + 3 + (
            if self.budget_kind == GoalBudgetKind::Unlimited {
                0int
            } else {
                2int
            }) <= u16::MAX,
        ensures
            r == if area.width <= 2 {
                None
            } else {
                let x = rows_sum(area.x as int, 2) as u16;
                let width = (area.width - 2) as u16;
                match self.focus {
                    GoalSetupFocus::Objective => Some(
                        Rect {
                            x,
                            y: (area.y + 3 + (if self.budget_kind == GoalBudgetKind::Unlimited {
                                0int
                            } else {
                                2int
                            })) as u16,
                            width,
                            height: objective_rows(desired_objective as int) as u16,
                        },
                    ),
                    GoalSetupFocus::Value => if self.budget_kind != GoalBudgetKind::Unlimited {
                        Some(Rect { x, y: rows_sum(area.y as int, 3) as u16, width, height: 1 })
                    } else {
                        None
                    },
                    GoalSetupFocus::Budget => None,
                }
            },
    {
        if area.width <= 2 {
            return None;
        }
        let x = below(area.x, 2);
        let width: u16 = area.width - 2;
        match self.focus {
            GoalSetupFocus::Objective => {
                let value_rows: u16 = if self.budget_kind == GoalBudgetKind::Unlimited {
                    0
                } else {
                    2
                };
                let height = self.objective_height(desired_objective);
                Some(Rect { x, y: area.y + 3 + value_rows, width, height })
            },
            GoalSetupFocus::Value => if self.budget_kind != GoalBudgetKind::Unlimited {
                Some(Rect { x, y: below(area.y, 3), width, height: 1 })
            } else {
                None
            },
            GoalSetupFocus::Budget => None,
        }
    }
}

// ---- what the rows say ----

/// What stands left of every row.
pub open spec fn gutter() -> spans::SpanView {
    ("| "@, Tone::Cyan)
}

/// How the kind of budget is shown.
pub open spec fn kind_label(kind: GoalBudgetKind) -> Seq<char> {
    match kind {
        GoalBudgetKind::Unlimited => "None"@,
        GoalBudgetKind::Tokens => "Tokens"@,
        GoalBudgetKind::FiveHourLimit => "5h limit"@,
    }
}

/// What a row of the form says, but for what is typed into it. A row that is typed into holds
/// its gutter, and what it is for while nothing is typed.
pub open spec fn row_view(
    view: GoalSetupView,
    kind: GoalRowKind,
    value_is_empty: bool,
    objective_is_empty: bool,
) -> Seq<spans::SpanView> {
    match kind {
        GoalRowKind::Title => seq![gutter(), ("Set goal"@, Tone::Bold)],
        GoalRowKind::Budget => seq![
            gutter(),
            ("Budget: "@, Tone::Dim),
            (
                kind_label(view.budget_kind),
                if view.focus == GoalSetupFocus::Budget {
                    Tone::Cyan
                } else {
                    Tone::Plain
                },
            ),
            ("  "@, Tone::Plain),
            ("tab focus, arrows cycle"@, Tone::Dim),
        ],
        GoalRowKind::ValueLabel => seq![gutter(), ("Value: "@, Tone::Dim)],
        GoalRowKind::ObjectiveLabel => seq![gutter(), ("Objective: "@, Tone::Dim)],
        GoalRowKind::Value => if value_is_empty {
            seq![
                gutter(),
                (
                    match view.budget_kind {
                        GoalBudgetKind::Unlimited => ""@,
                        GoalBudgetKind::Tokens => "500000 or 500k"@,
                        GoalBudgetKind::FiveHourLimit => "10%"@,
                    },
                    Tone::Dim,
                ),
            ]
        } else {
            seq![gutter()]
        },
        GoalRowKind::Objective => if objective_is_empty {
            seq![gutter(), ("What should Codex keep working toward?"@, Tone::Dim)]
        } else {
            seq![gutter()]
        },
        GoalRowKind::Error => match view.error {
            Some(e) => seq![gutter(), (e@, Tone::Red)],
            None => seq![gutter()],
        },
        GoalRowKind::Hint => Seq::empty(),
    }
}

impl GoalSetupView {
    /// What a row of the form says, but for what is typed into it.
    pub fn row_spans(&self, kind: GoalRowKind, value_is_empty: bool, objective_is_empty: bool)
        -> (r: Vec<Span>)
        ensures
            spans::line_view(r@) == row_view(*self, kind, value_is_empty, objective_is_empty),
    {
        let mut line = spans::empty_line();
        if kind == GoalRowKind::Hint {
            return line;
        }
        spans::push_span(&mut line, "| ".to_owned(), Tone::Cyan);
        match kind {
            GoalRowKind::Title => {
                spans::push_span(&mut line, "Set goal".to_owned(), Tone::Bold);
            },
            GoalRowKind::Budget => {
                let tone = if self.focus == GoalSetupFocus::Budget {
                    Tone::Cyan
                } else {
                    Tone::Plain
                };
                spans::push_span(&mut line, "Budget: ".to_owned(), Tone::Dim);
                spans::push_span(&mut line, self.budget_label().to_owned(), tone);
                spans::push_span(&mut line, "  ".to_owned(), Tone::Plain);
                spans::push_span(&mut line, "tab focus, arrows cycle".to_owned(), Tone::Dim);
            },
            GoalRowKind::ValueLabel => {
                spans::push_span(&mut line, "Value: ".to_owned(), Tone::Dim);
            },
            GoalRowKind::ObjectiveLabel => {
                spans::push_span(&mut line, "Objective: ".to_owned(), Tone::Dim);
            },
            GoalRowKind::Value => {
                if value_is_empty {
                    spans::push_span(&mut line, self.value_placeholder().to_owned(), Tone::Dim);
                }
            },
            GoalRowKind::Objective => {
                if objective_is_empty {
                    spans::push_span(
                        &mut line,
                        "What should Codex keep working toward?".to_owned(),
                        Tone::Dim,
                    );
                }
            },
            GoalRowKind::Error => {
                if let Some(e) = &self.error {
                    spans::push_span(&mut line, e.clone(), Tone::Red);
                }
            },
            GoalRowKind::Hint => {},
        }
        assert(spans::line_view(line@) =~= row_view(
            *self,
            kind,
            value_is_empty,
            objective_is_empty,
        ));
        line
    }
}

// ---- values ----

/// The notation of a number of tokens: the number, and what it counts.
#[derive(Debug)]
pub struct TokenNotation {
    pub number: String,
    pub multiplier: u64,
}

/// What the last character of a number of tokens multiplies it by; nothing where it is part
/// of the number.
pub open spec fn multiplier_of(c: char) -> Option<u64> {
    if c == 'k' || c == 'K' {
        Some(1_000)
    } else if c == 'm' || c == 'M' {
        Some(1_000_000)
    } else {
        None
    }
}

/// Takes a number of tokens apart.
pub fn split_token_budget(value: &str) -> (r: Result<TokenNotation, &'static str>)
    ensures
        ({
            let t = text::trim(value@);
            if t.len() == 0 {
                r is Err && r->Err_0@ == "Token budget must not be empty."@
            } else {
                &&& r matches Ok(n)
                &&& match multiplier_of(t.last()) {
                    Some(m) => n.number@ == t.drop_last() && n.multiplier == m,
                    None => n.number@ == t && n.multiplier == 1,
                }
            }
        }),
{
    let trimmed = text::trim_str(value);
    let c = text::chars_of(trimmed.as_str());
    if c.len() == 0 {
        return Err("Token budget must not be empty.");
    }
    let last = c[c.len() - 1];
    let multiplier: u64 = if last == 'k' || last == 'K' {
        1_000
    } else if last == 'm' || last == 'M' {
        1_000_000
    } else {
        return Ok(TokenNotation { number: trimmed, multiplier: 1 });
    };
    let number = text::string_of_range(c.as_slice(), 0, c.len() - 1);
    assert(number@ =~= trimmed@.drop_last());
    Ok(TokenNotation { number, multiplier })
}

/// The number of a percentage: what stands before the sign, or all of it.
pub open spec fn percent_text(value: Seq<char>) -> Seq<char> {
    let t = text::trim(value);
    text::trim(
        if t.len() > 0 && t.last() == '%' {
            t.drop_last()
        } else {
            t
        },
    )
}

/// The number of a percentage.
pub fn percent_number(value: &str) -> (r: String)
    ensures
        r@ == percent_text(value@),
{
    let trimmed = text::trim_str(value);
    let c = text::chars_of(trimmed.as_str());
    if c.len() > 0 && c[c.len() - 1] == '%' {
        let number = text::string_of_range(c.as_slice(), 0, c.len() - 1);
        assert(number@ =~= trimmed@.drop_last());
        return text::trim_str(number.as_str());
    }
    text::trim_str(trimmed.as_str())
}

/// Pressing the key for the next field often enough comes back to the field that it started
/// with, and going through the kinds of budget likewise.
pub proof fn cycling_comes_back(focus: GoalSetupFocus, kind: GoalBudgetKind)
    requires
        focus == GoalSetupFocus::Value ==> kind != GoalBudgetKind::Unlimited,
    ensures
        next_kind(next_kind(next_kind(kind))) == kind,
        if kind == GoalBudgetKind::Unlimited {
            next_focus(next_focus(focus, kind), kind) == focus
        } else {
            next_focus(next_focus(next_focus(focus, kind), kind), kind) == focus
        },
{
}

/// Escape ends the form whatever has the focus; nothing else ends it or goes back on its end.
/// Tab moves the focus and nothing else, and only where the kind of budget has the focus does a key
/// change it.
pub proof fn keys_do_one_thing(
    kind: GoalBudgetKind,
    focus: GoalSetupFocus,
    completion: Option<ViewCompletion>,
    key: GoalKey,
    no_modifiers: bool,
)
    ensures
        ({
            let (kind_after, focus_after, completion_after, outcome) = key_response(
                kind,
                focus,
                completion,
                key,
                no_modifiers,
            );
            &&& key is Esc ==> completion_after == Some(ViewCompletion::Cancelled)
            &&& key !is Esc ==> completion_after == completion
            &&& focus_after != focus ==> key is Tab
            &&& key is Tab ==> focus_after != focus
            &&& kind_after != kind <==> focus is Budget && (key is Left || key is Right || key
                is Space || (key is Enter && no_modifiers))
            &&& outcome is Submit <==> key is Enter && no_modifiers && focus !is Budget
            &&& outcome is InputObjective <==> focus is Objective && key !is Esc && key !is Tab && !(
            key is Enter && no_modifiers)
            &&& outcome is InputValue <==> focus is Value && key !is Esc && key !is Tab && !(key
                is Enter && no_modifiers)
        }),
{
}

/// The focus never rests on the value of a budget that has none.
pub proof fn the_focus_has_a_place(
    kind: GoalBudgetKind,
    focus: GoalSetupFocus,
    completion: Option<ViewCompletion>,
    key: GoalKey,
    no_modifiers: bool,
)
    requires
        focus is Value ==> kind !is Unlimited,
    ensures
        ({
            let after = key_response(kind, focus, completion, key, no_modifiers);
            after.1 is Value ==> after.0 !is Unlimited
        }),
        next_focus(focus, kind) is Value ==> kind !is Unlimited,
{
}

/// The rows of the form stand below each other, from the top of the area and without a gap but for
/// one above the hint; the value is asked for exactly where the budget has one, an error is shown
/// where there is one, and the hint where it has room.
pub proof fn form_rows_stand_below_each_other(
    kind: GoalBudgetKind,
    has_error: bool,
    y: int,
    height: int,
    objective: int,
    i: int,
)
    requires
        0 <= y,
        0 <= height,
        2 <= objective <= 6,
        y + height + 20 <= u16::MAX,
    ensures
        ({
            let rows = form_rows(kind, has_error, y, height, objective);
            let value = if kind is Unlimited {
                0int
            } else {
                2int
            };
            let error = if has_error {
                1int
            } else {
                0int
            };
            let hint = if 4 + value + objective + error < height {
                1int
            } else {
                0int
            };
            &&& rows.len() == 4 + value + error + hint
            &&& rows[0].kind is Title && rows[0].y == y
            &&& rows[1].kind is Budget
            &&& kind !is Unlimited ==> rows[2].kind is ValueLabel && rows[3].kind is Value
            &&& rows[2 + value].kind is ObjectiveLabel
            &&& rows[3 + value].kind is Objective && rows[3 + value].height == objective
            &&& has_error ==> rows[4 + value].kind is Error
            &&& hint == 1 ==> rows.last().kind is Hint && rows.last().y < y + height
            &&& 0 <= i < rows.len() && i != 3 + value ==> rows[i].height == 1
            &&& 0 <= i < rows.len() - 1 ==> rows[i + 1].y == rows[i].y + rows[i].height + (
            if rows[i + 1].kind is Hint {
                1int
            } else {
                0
            })
        }),
{
}

/// The field of the objective takes as many rows as it wants, but at least two and at most six.
pub proof fn objectives_take_two_to_six_rows(desired: int)
    ensures
        2 <= objective_rows(desired) <= 6,
        2 <= desired <= 6 ==> objective_rows(desired) == desired,
        desired < 2 ==> objective_rows(desired) == 2,
        desired > 6 ==> objective_rows(desired) == 6,
{
}

/// A share is read alike with and without a percent sign, and whatever white space is around it.
pub proof fn percent_signs_are_optional(number: Seq<char>)
    requires
        text::trim(number) == number,
        number.len() == 0 || number.last() != '%',
    ensures
        percent_text(number) == number,
        text::trim(number.push('%')) == number.push('%') ==> percent_text(number.push('%'))
            == number,
{
    assert(number.push('%').drop_last() =~= number);
}

/// A row of the form shows what it is for: the kind of budget by its name, and an error in full.
pub proof fn form_rows_show_what_they_are_for(view: GoalSetupView, a: bool, b: bool)
    ensures
        row_view(view, GoalRowKind::Budget, a, b)[2].0 == kind_label(view.budget_kind),
        view.error matches Some(e) ==> row_view(view, GoalRowKind::Error, a, b).last().0 == e@,
        row_view(view, GoalRowKind::Value, false, b).len() == 1,
        row_view(view, GoalRowKind::Value, true, b).len() == 2,
        row_view(view, GoalRowKind::Objective, a, false).len() == 1,
        row_view(view, GoalRowKind::Objective, a, true).len() == 2,
        row_view(view, GoalRowKind::Hint, a, b).len() == 0,
{
}

/// The kinds of budget have names of their own, and so have the powers of a thousand that a number
/// of tokens may end with, in either case.
pub proof fn token_endings_are_thousands_and_millions(c: char)
    ensures
        multiplier_of('k') == Some(1000u64) && multiplier_of('K') == Some(1000u64),
        multiplier_of('m') == Some(1000000u64) && multiplier_of('M') == Some(1000000u64),
        text::is_ascii_digit(c) ==> multiplier_of(c) is None,
        multiplier_of(c) is Some ==> c == 'k' || c == 'K' || c == 'm' || c == 'M',
{
}

} // verus!
