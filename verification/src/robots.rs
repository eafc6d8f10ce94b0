//! Robots exclusion policy of one origin.

use texting_robots::Robot;
use vstd::prelude::*;
use vstd::utf8::encode_utf8;

verus! {

/// `texting_robots::Robot`: the rules of a robots document for one agent.
/// Nothing inside it is visible here.
#[verifier::external_type_specification]
#[verifier::external_body]
pub struct ExRobot(texting_robots::Robot);

/// `anyhow::Error`: the error that `Robot::new` returns. Nothing inside it
/// is visible here.
#[verifier::external_type_specification]
#[verifier::external_body]
pub struct ExAnyhowError(anyhow::Error);

/// The rule set that `Robot::new` builds for `agent` from the document `txt`,
/// or `None` where it rejects the document.
pub uninterp spec fn robots_rules(agent: Seq<char>, txt: Seq<u8>) -> Option<Robot>;

/// The verdict of `Robot::allowed` on `url` under the rule set `robot`.
pub uninterp spec fn robots_allows(robot: Robot, url: Seq<char>) -> bool;

/// The crawl delay of the rule set `robot` in whole seconds, where the
/// document gives one for the agent.
pub uninterp spec fn robots_delay(robot: Robot) -> Option<u64>;

/// `Robot::new`: parses a robots document for one agent. The result is the
/// rule set named by [`robots_rules`]; an error means the document was
/// rejected.
#[verifier::external_body]
fn robot_new(agent: &str, txt: &[u8]) -> (r: Result<Robot, anyhow::Error>)
    ensures
        match r {
            Ok(robot) => robots_rules(agent@, txt@) == Some(robot),
            Err(_) => robots_rules(agent@, txt@) is None,
        },
{
    Robot::new(agent, txt)
}

/// `Robot::allowed`: whether the rule set permits `url`.
#[verifier::external_body]
fn robot_allowed(robot: &Robot, url: &str) -> (b: bool)
    ensures
        b == robots_allows(*robot, url@),
{
    robot.allowed(url)
}

/// The public field `Robot::delay`: the crawl delay in seconds, if the
/// document gives one. The fraction of a second is cut off by the
/// conversion to an integer.
#[verifier::external_body]
fn robot_delay(robot: &Robot) -> (d: Option<u64>)
    ensures
        d == robots_delay(*robot),
{
    robot.delay.map(|secs| secs as u64)
}

/// Why a robots document could not be used.
#[derive(Clone, Copy, Debug, PartialEq, Eq, Structural)]
pub enum RobotsError {
    /// The document was retrieved but is not a robots document.
    Malformed,
}

/// How the retrieval of an origin's robots document ended.
#[derive(Debug)]
pub enum RobotsFetch {
    /// The request failed, or the response could not be read as text.
    Unreachable,
    /// The text that was retrieved.
    Body(String),
}

/// The parsed robots rules of one origin, for one agent.
pub struct RobotsPolicy {
    robot: Robot,
}

impl RobotsPolicy {
    /// The rule set behind this policy.
    pub closed spec fn rules(&self) -> Robot {
        self.robot
    }

    /// Whether the policy permits `url`.
    pub open spec fn allows(&self, url: Seq<char>) -> bool {
        robots_allows(self.rules(), url)
    }

    /// The delay the policy mandates between requests, in seconds.
    pub open spec fn delay(&self) -> Option<u64> {
        robots_delay(self.rules())
    }

    /// The policy over the rule set `rules`.
    pub closed spec fn of(rules: Robot) -> RobotsPolicy {
        RobotsPolicy { robot: rules }
    }

    /// The policy that the document `txt` holds for `agent`, or `None` where
    /// the document is malformed.
    pub open spec fn parsed(agent: Seq<char>, txt: Seq<u8>) -> Option<RobotsPolicy> {
        match robots_rules(agent, txt) {
            Some(rules) => Some(RobotsPolicy::of(rules)),
            None => None,
        }
    }

    /// Parses the document `txt` for the agent `agent`.
    pub fn parse(agent: &str, txt: &[u8]) -> (r: Result<RobotsPolicy, RobotsError>)
        ensures
            r == match RobotsPolicy::parsed(agent@, txt@) {
                Some(policy) => Ok::<RobotsPolicy, RobotsError>(policy),
                None => Err(RobotsError::Malformed),
            },
    {
        match robot_new(agent, txt) {
            Ok(robot) => Ok(RobotsPolicy { robot }),
            Err(_) => Err(RobotsError::Malformed),
        }
    }

    /// The policy that follows for `agent` from what was fetched, or `None`
    /// where the document is malformed: no policy from an unreachable
    /// document, and the parsed rules from a retrieved one.
    pub open spec fn policy_from(agent: Seq<char>, fetched: RobotsFetch) -> Option<
        Option<RobotsPolicy>,
    > {
        match fetched {
            RobotsFetch::Unreachable => Some(None),
            RobotsFetch::Body(text) => match RobotsPolicy::parsed(agent, encode_utf8(text@)) {
                Some(policy) => Some(Some(policy)),
                None => None,
            },
        }
    }

    /// Decides on the policy of an origin from the outcome of fetching its
    /// robots document. An unreachable document means no policy: everything
    /// is permitted. A document that was retrieved but does not parse is an
    /// error.
    pub fn fetched(agent: &str, fetched: RobotsFetch) -> (r: Result<
        Option<RobotsPolicy>,
        RobotsError,
    >)
        ensures
            r == match RobotsPolicy::policy_from(agent@, fetched) {
                Some(policy) => Ok::<Option<RobotsPolicy>, RobotsError>(policy),
                None => Err(RobotsError::Malformed),
            },
    {
        match fetched {
            RobotsFetch::Unreachable => Ok(None),
            RobotsFetch::Body(text) => match RobotsPolicy::parse(agent, text.as_str().as_bytes()) {
                Ok(policy) => Ok(Some(policy)),
                Err(e) => Err(e),
            },
        }
    }

    /// Whether `url` may be fetched.
    pub fn allow(&self, url: &str) -> (b: bool)
        ensures
            b == self.allows(url@),
    {
        robot_allowed(&self.robot, url)
    }

    /// The mandated delay between requests, in seconds.
    pub fn crawl_delay(&self) -> (d: Option<u64>)
        ensures
            d == self.delay(),
    {
        robot_delay(&self.robot)
    }
}

} // verus!
