//! Rules core of a four-seat partnership trick-taking game played with a
//! 36-card deck: card ranking under a trump suit, the legal-play resolver,
//! trick evaluation and round scoring.

pub mod card;
pub mod deck;
pub mod player;
pub mod round;
pub mod rules;
pub mod trick;
