use vstd::prelude::*;

verus! {

/// Zsh integration script: binds the space key so that, after a single
/// command word, the defined subcommands are offered through fzf.
pub const ZSH_INTEGRATION: &'static str = r#"# compack zsh integration
_compack_completion_or_space() {
    # First insert the space
    zle self-insert

    # Get the command (first word before space)
    local cmd="${LBUFFER%% *}"

    # Early return: Only trigger if we have exactly one word and just typed a space
    [[ "$LBUFFER" != "$cmd " || -z "$cmd" ]] && return

    # Check if this command has subcommands defined
    local candidates=$(compack query "$cmd" 2>/dev/null)
    
    # Early return: No candidates means command not defined, keep space as normal input
    [[ -z "$candidates" ]] && return

    # Add a special option to run without subcommand
    local all_options="[Run without subcommand]"$'\n'"$candidates"
    
    # Open fzf for selection
    local selected=$(echo "$all_options" | fzf --height 40% --reverse --prompt="$cmd > " --bind=tab:down,shift-tab:up)

    # Handle ESC pressed (nothing selected)
    if [[ -z "$selected" ]]; then
        zle reset-prompt
        return
    fi

    # Set the command line based on selection
    if [[ "$selected" == "[Run without subcommand]" ]]; then
        LBUFFER="${cmd}"
    else
        LBUFFER="${cmd} ${selected}"
        
        # Check if this subcommand has nested subcommands
        local nested_candidates=$(compack query "$cmd $selected" 2>/dev/null)
        
        # If nested subcommands exist, trigger another selection
        if [[ -n "$nested_candidates" ]]; then
            # Add option to run without nested subcommand
            local nested_options="[Run without nested subcommand]"$'\n'"$nested_candidates"
            
            # Open fzf for nested selection
            local nested_selected=$(echo "$nested_options" | fzf --height 40% --reverse --prompt="$cmd $selected > " --bind=tab:down,shift-tab:up)
            
            # Handle ESC pressed (nothing selected)
            if [[ -z "$nested_selected" ]]; then
                zle reset-prompt
                return
            fi
            
            # Set the command line based on nested selection
            if [[ "$nested_selected" != "[Run without nested subcommand]" ]]; then
                LBUFFER="${cmd} ${selected} ${nested_selected}"
            fi
        fi
    fi
    
    # Execute the command
    zle accept-line
}

zle -N _compack_completion_or_space
bindkey ' ' _compack_completion_or_space
"#;

/// A shell for which an integration script is available.
#[derive(Debug, Clone, Copy, PartialEq, Eq, Structural)]
pub enum Shell {
    Zsh,
}

/// The message given for a shell identifier that has no integration script.
pub open spec fn unsupported_shell_message(name: Seq<char>) -> Seq<char> {
    "Shell '"@ + name + "' is not supported yet. Currently supported: zsh"@
}

impl Shell {
    /// Selects the shell named by `s`; only "zsh" is recognised.
    pub fn from_str(s: &str) -> (r: Result<Shell, String>)
        ensures
            s@ == "zsh"@ ==> r == Ok::<Shell, String>(Shell::Zsh),
            s@ != "zsh"@ ==> (r matches Err(msg) && msg@ == unsupported_shell_message(s@)),
    {
        let name = s.to_owned();
        if name == "zsh".to_owned() {
            Ok(Shell::Zsh)
        } else {
            let mut msg = "Shell '".to_owned();
            msg.append(s);
            msg.append("' is not supported yet. Currently supported: zsh");
            Err(msg)
        }
    }

    /// The fixed integration script of this shell.
    pub fn integration_script(&self) -> (r: &'static str)
        ensures
            r@ == ZSH_INTEGRATION@,
    {
        match self {
            Shell::Zsh => ZSH_INTEGRATION,
        }
    }
}

} // verus!
