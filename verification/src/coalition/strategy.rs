//! The strategy of a coalition.

use crate::binary64::Binary64;
use crate::text::parameters_view;
use vstd::prelude::*;

verus! {

/// The kind of a coalition's strategy.
#[derive(Clone, Copy, Debug, PartialEq, Eq, Structural)]
pub enum StrategyType {
    /// Seeks the greatest utility.
    MaximizeUtility,
    /// Seeks the least cost.
    MinimizeCost,
    /// Spreads resources evenly.
    BalanceResources,
    /// Seeks the widest coverage.
    MaximizeCoverage,
}

/// A strategy: its kind, and named parameters in the order in which they
/// were added. A name may occur more than once.
#[derive(Clone, Debug)]
pub struct Strategy {
    strategy_type: StrategyType,
    parameters: Vec<(String, Binary64)>,
}

/// What a strategy holds.
pub struct StrategyView {
    pub strategy_type: StrategyType,
    pub parameters: Seq<(Seq<char>, Binary64)>,
}

impl View for Strategy {
    type V = StrategyView;

    closed spec fn view(&self) -> StrategyView {
        StrategyView {
            strategy_type: self.strategy_type,
            parameters: parameters_view(self.parameters@),
        }
    }
}

impl Strategy {
    /// The strategy of the given kind, without parameters.
    pub fn new(strategy_type: StrategyType) -> (strategy: Strategy)
        ensures
            strategy@ == (StrategyView { strategy_type, parameters: Seq::empty() }),
    {
        let strategy = Strategy { strategy_type, parameters: Vec::new() };
        assert(strategy@.parameters =~= Seq::empty());
        strategy
    }

    /// The same strategy with the parameter `name` of value `value` added
    /// after those it has.
    pub fn with_parameter(self, name: &str, value: Binary64) -> (strategy: Strategy)
        ensures
            strategy@ == (StrategyView {
                parameters: self@.parameters.push((name@, value)),
                ..self@
            }),
    {
        let mut strategy = self;
        strategy.parameters.push((name.to_owned(), value));
        assert(strategy@.parameters =~= self@.parameters.push((name@, value)));
        strategy
    }

    /// The kind of the strategy.
    pub fn strategy_type(&self) -> (strategy_type: StrategyType)
        ensures
            strategy_type == self@.strategy_type,
    {
        self.strategy_type
    }

    /// The parameters, in the order in which they were added.
    pub fn parameters(&self) -> (parameters: &[(String, Binary64)])
        ensures
            parameters_view(parameters@) == self@.parameters,
    {
        self.parameters.as_slice()
    }
}

} // verus!
